//! A block of data under its content identifier.

use crate::content_id::{
    multihash_digest, ContentId, ContentIdView, Prefix, Version, DAG_PB, SHA2_256,
};
use crate::error::Error;
use ::bytes::Bytes;
use vstd::prelude::*;

verus! {

/// `Bytes` of the `bytes` crate: a buffer of bytes that is cheap to hand on. Verus
/// sees nothing inside it.
#[verifier::external_type_specification]
#[verifier::external_body]
pub struct ExBytes(Bytes);

/// The bytes that a buffer holds, in order.
pub uninterp spec fn bytes_of(b: Bytes) -> Seq<u8>;

/// `Bytes::len`: the number of bytes that the buffer holds.
#[verifier::external_body]
pub(crate) fn bytes_len(b: &Bytes) -> (n: usize)
    ensures
        n == bytes_of(*b).len(),
{
    b.len()
}

/// `Bytes::clone`: another handle on the same bytes.
#[verifier::external_body]
pub(crate) fn bytes_clone(b: &Bytes) -> (r: Bytes)
    ensures
        bytes_of(r) == bytes_of(*b),
{
    b.clone()
}

/// `Bytes::as_ref`: the buffer's bytes as a slice.
#[verifier::external_body]
pub(crate) fn bytes_as_slice(b: &Bytes) -> (s: &[u8])
    ensures
        s@ == bytes_of(*b),
{
    b.as_ref()
}

/// `Bytes::copy_from_slice`: a buffer that holds a copy of the slice's bytes.
#[verifier::external_body]
pub(crate) fn bytes_from_slice(s: &[u8]) -> (b: Bytes)
    ensures
        bytes_of(b) == s@,
{
    Bytes::copy_from_slice(s)
}

/// What a block is: an identifier and the bytes under it.
pub struct BlockView {
    pub cid: ContentIdView,
    pub data: Seq<u8>,
}

impl BlockView {
    /// The identifier's digest is the digest of the data under the identifier's hash
    /// function. Decoding makes only such blocks; `Block::new` does not ask for it.
    pub open spec fn content_addressed(self) -> bool {
        multihash_digest(self.cid.hash_code, self.data) == Some(self.cid.digest)
    }
}

/// The identifier that a block of the first protocol version has: version 0, which
/// means the SHA2-256 digest of the data.
pub open spec fn legacy_id(data: Seq<u8>) -> Option<ContentIdView> {
    (Prefix { version: Version::V0, codec: DAG_PB, mh_type: SHA2_256, mh_len: 32 }).identify(data)
}

/// A block of data with its identifier.
#[derive(Debug, PartialEq, Eq)]
pub struct Block {
    pub cid: ContentId,
    pub data: Bytes,
}

impl View for Block {
    type V = BlockView;

    open spec fn view(&self) -> BlockView {
        BlockView { cid: self.cid@, data: bytes_of(self.data) }
    }
}

impl Clone for Block {
    fn clone(&self) -> (r: Self)
        ensures
            r@ == self@,
            self@.cid.wf(),
    {
        Block { cid: self.cid.clone(), data: bytes_clone(&self.data) }
    }
}

impl Block {
    /// A block of `data` under `cid`. That `cid` is the identifier of `data` is not
    /// looked into.
    pub fn new(data: Bytes, cid: ContentId) -> (b: Block)
        ensures
            b@ == (BlockView { cid: cid@, data: bytes_of(data) }),
    {
        Block { cid, data }
    }

    /// The identifier that the block stands under.
    pub fn cid(&self) -> (c: &ContentId)
        ensures
            c@ == self@.cid,
    {
        &self.cid
    }

    /// The data of the block.
    pub fn data(&self) -> (d: &Bytes)
        ensures
            bytes_of(*d) == self@.data,
    {
        &self.data
    }

    /// The block that raw data of the first protocol version stands for: its
    /// identifier is of version 0, over the SHA2-256 digest of the data.
    pub fn from_v0_data(data: Bytes) -> (r: Result<Block, Error>)
        ensures
            r is Ok,
            r matches Ok(b) ==> b@.data == bytes_of(data) && legacy_id(bytes_of(data)) == Some(
                b@.cid,
            ) && b@.content_addressed(),
    {
        let prefix = Prefix { version: Version::V0, codec: DAG_PB, mh_type: SHA2_256, mh_len: 32 };
        match prefix.to_cid(bytes_as_slice(&data)) {
            Ok(cid) => Ok(Block { cid, data }),
            Err(e) => Err(e),
        }
    }
}

} // verus!
