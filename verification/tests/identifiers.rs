use cid::Cid;
use iroh_bitswap::{ContentId, Error, Prefix, Version};
use multihash_codetable::{Code, MultihashDigest};

#[test]
fn identifier_bytes_are_those_of_the_cid_crate() {
    let v1 = Cid::new_v1(0x71, Code::Sha2_256.digest(b"foo"));
    let id = ContentId::from_bytes(&v1.to_bytes()).unwrap();
    assert_eq!(id.version(), Version::V1);
    assert_eq!(id.codec(), 0x71);
    assert_eq!(id.hash_code(), 0x12);
    assert_eq!(id.digest(), Code::Sha2_256.digest(b"foo").digest());
    assert_eq!(id.to_bytes(), v1.to_bytes());
    assert_eq!(&id.to_bytes()[..4], &[0x01, 0x71, 0x12, 0x20]);
    assert_eq!(id.to_bytes().len(), 36);

    let v0 = Cid::new_v0(Code::Sha2_256.digest(b"foo")).unwrap();
    let id = ContentId::from_bytes(&v0.to_bytes()).unwrap();
    assert_eq!(id.version(), Version::V0);
    assert_eq!(id.codec(), 0x70);
    assert_eq!(id.to_bytes(), v0.to_bytes());
    assert_eq!(&id.to_bytes()[..2], &[0x12, 0x20]);
    assert_eq!(id.to_bytes().len(), 34);
}

#[test]
fn a_large_codec_takes_more_bytes() {
    let cid = Cid::new_v1(0x0129, Code::Sha2_512.digest(b"foo"));
    let id = ContentId::from_bytes(&cid.to_bytes()).unwrap();
    assert_eq!(&id.to_bytes()[..5], &[0x01, 0xa9, 0x02, 0x13, 0x40]);
    assert_eq!(id.to_bytes().len(), 5 + 64);
    assert_eq!(ContentId::from_bytes(&id.to_bytes()).unwrap(), id);
}

#[test]
fn bytes_that_are_no_identifier_are_turned_down() {
    assert_eq!(ContentId::from_bytes(&[]).err(), Some(Error::InvalidIdentifier));
    assert_eq!(ContentId::from_bytes(&[0x12, 0x20, 1, 2, 3]).err(), Some(Error::InvalidIdentifier));
    assert_eq!(ContentId::from_bytes(&[0x05, 0x55, 0x12, 0x00]).err(), Some(Error::InvalidIdentifier));
}

#[test]
fn an_identifier_from_its_parts_must_be_valid() {
    let digest = Code::Sha2_256.digest(b"x").digest().to_vec();
    let id = ContentId::new(Version::V1, 0x55, 0x12, digest.clone()).unwrap();
    assert_eq!(id.to_bytes(), Cid::new_v1(0x55, Code::Sha2_256.digest(b"x")).to_bytes());
    assert!(ContentId::new(Version::V0, 0x70, 0x12, digest.clone()).is_ok());
    assert_eq!(
        ContentId::new(Version::V0, 0x55, 0x12, digest.clone()).err(),
        Some(Error::InvalidIdentifier)
    );
    assert_eq!(
        ContentId::new(Version::V0, 0x70, 0x13, digest.clone()).err(),
        Some(Error::InvalidIdentifier)
    );
    assert_eq!(
        ContentId::new(Version::V0, 0x70, 0x12, vec![0; 31]).err(),
        Some(Error::InvalidIdentifier)
    );
    assert!(ContentId::new(Version::V1, 0x55, 0x12, vec![0; 64]).is_ok());
    assert_eq!(
        ContentId::new(Version::V1, 0x55, 0x12, vec![0; 65]).err(),
        Some(Error::InvalidIdentifier)
    );
}

#[test]
fn a_prefix_reads_back_from_its_bytes() {
    let id = ContentId::from_bytes(&Cid::new_v1(0x0129, Code::Sha2_512.digest(b"p")).to_bytes())
        .unwrap();
    let prefix = id.prefix();
    assert_eq!(prefix, Prefix { version: Version::V1, codec: 0x0129, mh_type: 0x13, mh_len: 64 });
    let bytes = prefix.to_bytes();
    assert_eq!(bytes, vec![0x01, 0xa9, 0x02, 0x13, 0x40]);
    assert_eq!(Prefix::new(&bytes), Ok(prefix));
    // what follows the four numbers is not looked at
    assert_eq!(Prefix::new(&[0x01, 0xa9, 0x02, 0x13, 0x40, 0xff]), Ok(prefix));
    assert_eq!(Prefix::new(&[0x01, 0xa9, 0x02, 0x13]), Err(Error::InvalidPrefix));
    assert_eq!(Prefix::new(&[0x07, 0x55, 0x12, 0x20]), Err(Error::InvalidPrefix));
    assert_eq!(prefix.to_cid(b"p"), Ok(id));
}

#[test]
fn a_prefix_hashes_with_its_own_function() {
    let prefix = Prefix { version: Version::V1, codec: 0x55, mh_type: 0x16, mh_len: 32 };
    let id = prefix.to_cid(b"abc").unwrap();
    assert_eq!(id.digest(), Code::Sha3_256.digest(b"abc").digest());
    assert_eq!(id.hash_code(), 0x16);
    let unknown = Prefix { version: Version::V1, codec: 0x55, mh_type: 0x99, mh_len: 32 };
    assert_eq!(unknown.to_cid(b"abc"), Err(Error::InvalidIdentifier));
    let v0 = Prefix { version: Version::V0, codec: 0x70, mh_type: 0x12, mh_len: 32 };
    assert_eq!(
        v0.to_cid(b"abc").unwrap().to_bytes(),
        Cid::new_v0(Code::Sha2_256.digest(b"abc")).unwrap().to_bytes()
    );
    let v0_sha3 = Prefix { version: Version::V0, codec: 0x70, mh_type: 0x16, mh_len: 32 };
    assert_eq!(v0_sha3.to_cid(b"abc"), Err(Error::InvalidIdentifier));
}
