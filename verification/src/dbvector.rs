//! Owned byte strings handed out by point reads.
//!
//! A read always hands the caller its own copy of the stored value, so the
//! result stays valid however the database moves on afterwards.

use vstd::prelude::*;
use vstd::utf8::decode_utf8;
use vstd::utf8::valid_utf8;

verus! {

/// An owned value returned by a read.
#[derive(Debug)]
pub struct DBVector {
    data: Vec<u8>,
}

impl View for DBVector {
    type V = Seq<u8>;

    closed spec fn view(&self) -> Seq<u8> {
        self.data@
    }
}

impl DBVector {
    /// Wraps an owned byte vector.
    pub fn from_vec(data: Vec<u8>) -> (r: DBVector)
        ensures
            r@ == data@,
    {
        DBVector { data }
    }

    /// The length of the value in bytes.
    pub fn len(&self) -> (n: usize)
        ensures
            n == self@.len(),
    {
        self.data.len()
    }

    /// The value's bytes.
    pub fn as_bytes(&self) -> (r: &[u8])
        ensures
            r@ == self@,
    {
        self.data.as_slice()
    }

    /// The value decoded as text, when its bytes are well-formed UTF-8.
    ///
    /// Relies on `std::str::from_utf8`: it succeeds exactly on valid UTF-8,
    /// and the returned text is the decoding of the bytes.
    #[verifier::external_body]
    pub fn to_utf8(&self) -> (r: Option<&str>)
        ensures
            r is Some <==> valid_utf8(self@),
            r is Some ==> r.unwrap()@ == decode_utf8(self@),
    {
        std::str::from_utf8(self.data.as_slice()).ok()
    }
}

} // verus!
