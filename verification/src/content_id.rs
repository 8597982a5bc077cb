//! Content identifiers: a version, a codec tag, the code of a hash function and a
//! digest; their byte form; and the prefix that stands for one without its digest.

use crate::error::Error;
use crate::varint::{get_varint, lemma_read_varint, put_varint, read_varint, varint};
use vstd::prelude::*;

verus! {

/// The codec tag that every version-0 identifier has.
pub const DAG_PB: u64 = 0x70;

/// The code of the SHA2-256 hash function, the only one of version-0 identifiers.
pub const SHA2_256: u64 = 0x12;

/// The longest digest that an identifier can hold.
pub const MAX_DIGEST_LEN: usize = 64;

/// The version of an identifier.
#[derive(Clone, Copy, Debug, PartialEq, Eq, Hash, Structural)]
pub enum Version {
    V0,
    V1,
}

impl Version {
    /// The number that stands for the version on the wire.
    pub open spec fn number(self) -> u64 {
        match self {
            Version::V0 => 0,
            Version::V1 => 1,
        }
    }

    /// The number that stands for the version on the wire.
    pub fn to_u64(self) -> (n: u64)
        ensures
            n == self.number(),
    {
        match self {
            Version::V0 => 0,
            Version::V1 => 1,
        }
    }

    /// The version that `n` stands for: 0 and 1 are the only ones.
    pub fn from_u64(n: u64) -> (r: Option<Version>)
        ensures
            r == Version::spec_from_u64(n),
    {
        if n == 0 {
            Some(Version::V0)
        } else if n == 1 {
            Some(Version::V1)
        } else {
            None
        }
    }

    /// The version that `n` stands for: 0 and 1 are the only ones.
    pub open spec fn spec_from_u64(n: u64) -> Option<Version> {
        if n == 0 {
            Some(Version::V0)
        } else if n == 1 {
            Some(Version::V1)
        } else {
            None
        }
    }
}

/// What an identifier is: its four parts as mathematical values.
pub struct ContentIdView {
    pub version: Version,
    pub codec: u64,
    pub hash_code: u64,
    pub digest: Seq<u8>,
}

impl ContentIdView {
    /// An identifier holds at most 64 bytes of digest; one of version 0 has the codec
    /// `DAG_PB` and a SHA2-256 digest of 32 bytes.
    pub open spec fn wf(self) -> bool {
        match self.version {
            Version::V0 => self.codec == DAG_PB && self.hash_code == SHA2_256
                && self.digest.len() == 32,
            Version::V1 => self.digest.len() <= MAX_DIGEST_LEN,
        }
    }

    /// The byte form of the identifier. Version 0 is the bare multihash: hash code,
    /// digest length, digest. Version 1 puts the version and the codec before it.
    pub open spec fn bytes(self) -> Seq<u8> {
        let multihash = varint(self.hash_code as nat) + varint(self.digest.len()) + self.digest;
        match self.version {
            Version::V0 => multihash,
            Version::V1 => varint(1) + varint(self.codec as nat) + multihash,
        }
    }

    /// The prefix of the identifier: all of it but the digest's bytes.
    pub open spec fn prefix(self) -> Prefix {
        Prefix {
            version: self.version,
            codec: self.codec,
            mh_type: self.hash_code,
            mh_len: self.digest.len() as u64,
        }
    }
}

/// The identifier that `bytes` are the byte form of, as the `cid` crate reads them;
/// `None` where it reads none.
pub uninterp spec fn cid_from_bytes(bytes: Seq<u8>) -> Option<ContentIdView>;

/// The digest of `data` under the hash function with the code `code`, as the
/// `multihash-codetable` crate computes it; `None` where it knows no such function.
pub uninterp spec fn multihash_digest(code: u64, data: Seq<u8>) -> Option<Seq<u8>>;

/// A content identifier. Its parts cannot be changed once it is made.
#[derive(Debug, PartialEq, Eq, Hash)]
pub struct ContentId {
    version: Version,
    codec: u64,
    hash_code: u64,
    digest: Vec<u8>,
}

impl View for ContentId {
    type V = ContentIdView;

    closed spec fn view(&self) -> ContentIdView {
        ContentIdView {
            version: self.version,
            codec: self.codec,
            hash_code: self.hash_code,
            digest: self.digest@,
        }
    }
}

impl Clone for ContentId {
    fn clone(&self) -> (r: Self)
        ensures
            r@ == self@,
            self@.wf(),
    {
        proof {
            use_type_invariant(self);
        }
        let digest = self.digest.clone();
        assert(digest@ =~= self.digest@);
        ContentId { version: self.version, codec: self.codec, hash_code: self.hash_code, digest }
    }
}

/// `Cid::try_from` on a byte slice: the identifier that the bytes hold, in its four
/// parts, or `None` where the crate reads none. What it reads is a valid identifier.
#[verifier::external_body]
fn cid_parse(bytes: &[u8]) -> (r: Option<ContentId>)
    ensures
        match r {
            Some(c) => cid_from_bytes(bytes@) == Some(c@) && c@.wf(),
            None => cid_from_bytes(bytes@).is_none(),
        },
{
    match ::cid::Cid::try_from(bytes) {
        Ok(c) => Some(
            ContentId {
                version: match c.version() {
                    ::cid::Version::V0 => Version::V0,
                    ::cid::Version::V1 => Version::V1,
                },
                codec: c.codec(),
                hash_code: c.hash().code(),
                digest: c.hash().digest().to_vec(),
            },
        ),
        Err(_) => None,
    }
}

/// `Cid::to_bytes`, on the identifier that `Cid::new` and `Multihash::wrap` make of
/// the four parts: the byte form, which is the multihash for version 0, and the
/// version, the codec and the multihash for version 1. `Cid::try_from` reads these
/// bytes as the same identifier.
#[verifier::external_body]
fn cid_to_bytes(version: Version, codec: u64, hash_code: u64, digest: &[u8]) -> (r: Vec<u8>)
    requires
        (ContentIdView { version, codec, hash_code, digest: digest@ }).wf(),
    ensures
        r@ == (ContentIdView { version, codec, hash_code, digest: digest@ }).bytes(),
        cid_from_bytes(r@) == Some(ContentIdView { version, codec, hash_code, digest: digest@ }),
{
    let hash = ::multihash::Multihash::<64>::wrap(hash_code, digest).unwrap();
    let v = match version {
        Version::V0 => ::cid::Version::V0,
        Version::V1 => ::cid::Version::V1,
    };
    ::cid::Cid::new(v, codec, hash).unwrap().to_bytes()
}

/// `Code::try_from` and then `MultihashDigest::digest`: the digest of `data` under the
/// hash function with the code `code`, or `None` where the table has no such code. A
/// digest has at most 64 bytes; SHA2-256 is in the table and gives 32.
#[verifier::external_body]
fn digest_of(code: u64, data: &[u8]) -> (r: Option<Vec<u8>>)
    ensures
        match r {
            Some(d) => multihash_digest(code, data@) == Some(d@) && d@.len() <= MAX_DIGEST_LEN,
            None => multihash_digest(code, data@).is_none(),
        },
        code == SHA2_256 ==> r.is_some() && r.unwrap()@.len() == 32,
{
    match ::multihash_codetable::Code::try_from(code) {
        Ok(c) => Some(::multihash_codetable::MultihashDigest::digest(&c, data).digest().to_vec()),
        Err(_) => None,
    }
}

impl ContentId {
    #[verifier::type_invariant]
    spec fn inv(self) -> bool {
        self@.wf()
    }

    /// Tells the verifier that this identifier is valid, as every identifier is. It
    /// does nothing when the program runs.
    pub fn note_valid(&self)
        ensures
            self@.wf(),
    {
        proof {
            use_type_invariant(self);
        }
    }

    /// An identifier from its four parts, where they make a valid one.
    pub fn new(version: Version, codec: u64, hash_code: u64, digest: Vec<u8>) -> (r: Result<
        ContentId,
        Error,
    >)
        ensures
            match r {
                Ok(c) => c@ == (ContentIdView { version, codec, hash_code, digest: digest@ })
                    && c@.wf(),
                Err(e) => e == Error::InvalidIdentifier && !(ContentIdView {
                    version,
                    codec,
                    hash_code,
                    digest: digest@,
                }).wf(),
            },
    {
        let valid = match version {
            Version::V0 => codec == DAG_PB && hash_code == SHA2_256 && digest.len() == 32,
            Version::V1 => digest.len() <= MAX_DIGEST_LEN,
        };
        if valid {
            Ok(ContentId { version, codec, hash_code, digest })
        } else {
            Err(Error::InvalidIdentifier)
        }
    }

    /// Reads an identifier from its byte form.
    pub fn from_bytes(bytes: &[u8]) -> (r: Result<ContentId, Error>)
        ensures
            match r {
                Ok(c) => cid_from_bytes(bytes@) == Some(c@) && c@.wf(),
                Err(e) => e == Error::InvalidIdentifier && cid_from_bytes(bytes@).is_none(),
            },
    {
        match cid_parse(bytes) {
            Some(c) => Ok(c),
            None => Err(Error::InvalidIdentifier),
        }
    }

    /// The byte form of the identifier, which reads back as the same identifier.
    pub fn to_bytes(&self) -> (r: Vec<u8>)
        ensures
            r@ == self@.bytes(),
            cid_from_bytes(r@) == Some(self@),
            self@.wf(),
    {
        proof {
            use_type_invariant(self);
        }
        cid_to_bytes(self.version, self.codec, self.hash_code, self.digest.as_slice())
    }

    /// The version of the identifier.
    pub fn version(&self) -> (v: Version)
        ensures
            v == self@.version,
            self@.wf(),
    {
        proof {
            use_type_invariant(self);
        }
        self.version
    }

    /// The codec tag of the identifier.
    pub fn codec(&self) -> (c: u64)
        ensures
            c == self@.codec,
    {
        self.codec
    }

    /// The code of the hash function of the identifier.
    pub fn hash_code(&self) -> (c: u64)
        ensures
            c == self@.hash_code,
    {
        self.hash_code
    }

    /// The digest of the identifier.
    pub fn digest(&self) -> (d: &[u8])
        ensures
            d@ == self@.digest,
    {
        self.digest.as_slice()
    }

    /// The prefix of the identifier.
    pub fn prefix(&self) -> (p: Prefix)
        ensures
            p == self@.prefix(),
            self@.wf(),
    {
        proof {
            use_type_invariant(self);
        }
        Prefix {
            version: self.version,
            codec: self.codec,
            mh_type: self.hash_code,
            mh_len: self.digest.len() as u64,
        }
    }
}

/// All of an identifier but its digest: version, codec, hash code, digest length.
#[derive(Clone, Copy, Debug, PartialEq, Eq, Structural)]
pub struct Prefix {
    pub version: Version,
    pub codec: u64,
    pub mh_type: u64,
    pub mh_len: u64,
}

impl Prefix {
    /// The byte form of a prefix: its four numbers, each in its shortest form.
    pub open spec fn bytes(self) -> Seq<u8> {
        varint(self.version.number() as nat) + varint(self.codec as nat) + varint(
            self.mh_type as nat,
        ) + varint(self.mh_len as nat)
    }

    /// The prefix at the front of `s`: four numbers, the first of them a version.
    /// What follows them is not looked at.
    pub open spec fn parse(s: Seq<u8>) -> Option<Prefix> {
        match read_varint(s) {
            None => None,
            Some((version, n1)) => match read_varint(s.skip(n1 as int)) {
                None => None,
                Some((codec, n2)) => match read_varint(s.skip((n1 + n2) as int)) {
                    None => None,
                    Some((mh_type, n3)) => match read_varint(s.skip((n1 + n2 + n3) as int)) {
                        None => None,
                        Some((mh_len, _)) => match Version::spec_from_u64(version) {
                            None => None,
                            Some(v) => Some(Prefix { version: v, codec, mh_type, mh_len }),
                        },
                    },
                },
            },
        }
    }

    /// The identifier of `data` under this prefix: the digest is that of `data` under
    /// the prefix's hash function, whatever digest length the prefix names.
    pub open spec fn identify(self, data: Seq<u8>) -> Option<ContentIdView> {
        match multihash_digest(self.mh_type, data) {
            None => None,
            Some(digest) => {
                let id = ContentIdView {
                    version: self.version,
                    codec: self.codec,
                    hash_code: self.mh_type,
                    digest,
                };
                if id.wf() {
                    Some(id)
                } else {
                    None
                }
            },
        }
    }

    /// Reads a prefix from its byte form.
    #[verifier::rlimit(50)]
    pub fn new(data: &[u8]) -> (r: Result<Prefix, Error>)
        ensures
            match r {
                Ok(p) => Prefix::parse(data@) == Some(p),
                Err(e) => e == Error::InvalidPrefix && Prefix::parse(data@).is_none(),
            },
    {
        assert(data@.skip(0) =~= data@);
        match get_varint(data, 0) {
            None => Err(Error::InvalidPrefix),
            Some((version, n1)) => match get_varint(data, n1) {
                None => Err(Error::InvalidPrefix),
                Some((codec, n2)) => match get_varint(data, n1 + n2) {
                    None => Err(Error::InvalidPrefix),
                    Some((mh_type, n3)) => match get_varint(data, n1 + n2 + n3) {
                        None => Err(Error::InvalidPrefix),
                        Some((mh_len, _)) => match Version::from_u64(version) {
                            Some(v) => Ok(Prefix { version: v, codec, mh_type, mh_len }),
                            None => Err(Error::InvalidPrefix),
                        },
                    },
                },
            },
        }
    }

    /// The byte form of the prefix.
    pub fn to_bytes(&self) -> (r: Vec<u8>)
        ensures
            r@ == self.bytes(),
    {
        let mut out: Vec<u8> = Vec::new();
        put_varint(self.version.to_u64(), &mut out);
        put_varint(self.codec, &mut out);
        put_varint(self.mh_type, &mut out);
        put_varint(self.mh_len, &mut out);
        assert(out@ =~= self.bytes());
        out
    }

    /// The identifier of `data` under this prefix. With SHA2-256 and the codec of
    /// version 0, or with any hash function of the table and version 1, there is one.
    pub fn to_cid(&self, data: &[u8]) -> (r: Result<ContentId, Error>)
        ensures
            match r {
                Ok(c) => self.identify(data@) == Some(c@) && c@.wf(),
                Err(e) => e == Error::InvalidIdentifier && self.identify(data@).is_none(),
            },
            self.mh_type == SHA2_256 && (self.version == Version::V1 || self.codec == DAG_PB)
                ==> r is Ok,
    {
        match digest_of(self.mh_type, data) {
            None => Err(Error::InvalidIdentifier),
            Some(digest) => ContentId::new(self.version, self.codec, self.mh_type, digest),
        }
    }

    /// Reading the byte form of a prefix gives the prefix back.
    #[verifier::rlimit(50)]
    pub proof fn lemma_parse_bytes(self, rest: Seq<u8>)
        ensures
            Prefix::parse(self.bytes() + rest) == Some(self),
    {
        let a = varint(self.version.number() as nat);
        let b = varint(self.codec as nat);
        let c = varint(self.mh_type as nat);
        let d = varint(self.mh_len as nat);
        let s = self.bytes() + rest;
        let s1 = b + (c + (d + rest));
        let s2 = c + (d + rest);
        let s3 = d + rest;
        assert(s =~= a + s1);
        lemma_read_varint(self.version.number(), s1);
        assert(read_varint(s) == Some((self.version.number(), a.len())));
        assert(s.skip(a.len() as int) =~= s1);
        lemma_read_varint(self.codec, s2);
        assert(s.skip((a.len() + b.len()) as int) =~= s2);
        lemma_read_varint(self.mh_type, s3);
        assert(s.skip((a.len() + b.len() + c.len()) as int) =~= s3);
        lemma_read_varint(self.mh_len, rest);
        assert(read_varint(s3) == Some((self.mh_len, d.len())));
    }
}

} // verus!
