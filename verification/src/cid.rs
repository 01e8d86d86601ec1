//! Component identifiers.

use uuid::Uuid;
use vstd::prelude::*;

verus! {

/// The identifier of a source of packets: a UUID of sixteen bytes.
#[derive(Clone, Copy, Debug, Eq, PartialEq)]
pub struct Cid {
    bytes: [u8; 16],
}

impl View for Cid {
    type V = Seq<u8>;

    closed spec fn view(&self) -> Seq<u8> {
        self.bytes@
    }
}

/// Whether bytes have the version and variant bits of a random UUID.
pub open spec fn is_random_uuid(bytes: Seq<u8>) -> bool {
    &&& bytes.len() == 16
    &&& 0x40 <= bytes[6] <= 0x4f
    &&& 0x80 <= bytes[8] <= 0xbf
}

/// `uuid::Uuid::new_v4`, as bytes: the version and variant bits are set, all
/// others are random. It panics only where the system has no random bytes to
/// give.
#[verifier::external_body]
fn new_v4() -> (result: [u8; 16])
    ensures
        is_random_uuid(result@),
{
    Uuid::new_v4().into_bytes()
}

/// An identifier has sixteen bytes.
pub proof fn lemma_cid_length(cid: Cid)
    ensures
        cid@.len() == 16,
{
}

impl Cid {
    /// The identifier with these bytes.
    pub fn from_bytes(bytes: [u8; 16]) -> (result: Cid)
        ensures
            result@ == bytes@,
    {
        Cid { bytes }
    }

    /// A fresh random identifier.
    pub fn random() -> (result: Cid)
        ensures
            is_random_uuid(result@),
    {
        Cid { bytes: new_v4() }
    }

    /// The bytes of the identifier.
    pub fn as_bytes(&self) -> (result: &[u8; 16])
        ensures
            result@ == self@,
    {
        &self.bytes
    }
}

} // verus!
