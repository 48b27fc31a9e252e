//! Topic and peer identifiers.

use vstd::prelude::*;
use crate::ascii::{ascii_chars, ascii_string, hex_lower, lemma_hex_is_ascii, to_hex_lower};
use vstd::slice::slice_subrange;

verus! {

/// Width in bytes of a topic identifier and of a peer identifier.
pub const ID_LEN: usize = 32;

/// Number of leading identifier bytes shown by the short form of a peer.
pub const SHORT_LEN: usize = 5;

/// Whether two identifier arrays hold the same bytes.
fn same_bytes(a: &[u8; 32], b: &[u8; 32]) -> (same: bool)
    ensures
        same == (a@ == b@),
{
    let mut i: usize = 0;
    while i < 32
        invariant
            i <= 32,
            forall|k: int| 0 <= k < i ==> a@[k] == b@[k],
        decreases 32 - i,
    {
        if a[i] != b[i] {
            return false;
        }
        i += 1;
    }
    assert(a@ =~= b@);
    true
}

/// Opaque 256-bit name of a broadcast domain.
#[derive(Clone, Copy, Debug, Hash)]
pub struct TopicId {
    pub bytes: [u8; 32],
}

impl View for TopicId {
    type V = Seq<u8>;

    open spec fn view(&self) -> Seq<u8> {
        self.bytes@
    }
}

impl TopicId {
    /// Builds a topic identifier from 256 bits, usually random ones.
    pub fn from_bytes(bytes: [u8; 32]) -> (id: TopicId)
        ensures
            id@ == bytes@,
    {
        TopicId { bytes }
    }

    /// The fixed-width byte encoding of the identifier.
    pub fn as_bytes(&self) -> (bytes: &[u8; 32])
        ensures
            bytes@ == self@,
    {
        &self.bytes
    }
}

impl PartialEq for TopicId {
    fn eq(&self, other: &TopicId) -> (same: bool) {
        same_bytes(&self.bytes, &other.bytes)
    }
}

impl Eq for TopicId {

}

impl vstd::std_specs::cmp::PartialEqSpecImpl for TopicId {
    open spec fn obeys_eq_spec() -> bool {
        true
    }

    open spec fn eq_spec(&self, other: &TopicId) -> bool {
        self@ == other@
    }
}

/// The short rendering of a peer: its first five bytes in lower-case
/// hexadecimal.
pub open spec fn short_form(id: Seq<u8>) -> Seq<char> {
    ascii_chars(hex_lower(id.subrange(0, SHORT_LEN as int)))
}

/// Identifier that the transport assigns to a participant.
#[derive(Clone, Copy, Debug, Hash)]
pub struct PeerId {
    pub bytes: [u8; 32],
}

impl View for PeerId {
    type V = Seq<u8>;

    open spec fn view(&self) -> Seq<u8> {
        self.bytes@
    }
}

impl PeerId {
    /// Builds a peer identifier from its 32 bytes.
    pub fn from_bytes(bytes: [u8; 32]) -> (id: PeerId)
        ensures
            id@ == bytes@,
    {
        PeerId { bytes }
    }

    /// The stable byte encoding of the identifier.
    pub fn as_bytes(&self) -> (bytes: &[u8; 32])
        ensures
            bytes@ == self@,
    {
        &self.bytes
    }

    /// The short, human-readable form shown while no name is known.
    pub fn fmt_short(&self) -> (text: String)
        ensures
            text@ == short_form(self@),
    {
        let head = slice_subrange(self.bytes.as_slice(), 0, SHORT_LEN);
        proof {
            lemma_hex_is_ascii(head@);
        }
        ascii_string(to_hex_lower(head))
    }
}

impl PartialEq for PeerId {
    fn eq(&self, other: &PeerId) -> (same: bool) {
        same_bytes(&self.bytes, &other.bytes)
    }
}

impl Eq for PeerId {

}

impl vstd::std_specs::cmp::PartialEqSpecImpl for PeerId {
    open spec fn obeys_eq_spec() -> bool {
        true
    }

    open spec fn eq_spec(&self, other: &PeerId) -> bool {
        self@ == other@
    }
}

/// How to reach a peer: its identifier and the transport's connection hints,
/// which this crate stores and hands on unread.
#[derive(Clone, Debug, PartialEq, Eq)]
pub struct PeerAddress {
    pub id: PeerId,
    pub hints: Vec<u8>,
}

/// Mathematical value of a [`PeerAddress`].
pub struct AddressModel {
    pub id: Seq<u8>,
    pub hints: Seq<u8>,
}

impl View for PeerAddress {
    type V = AddressModel;

    open spec fn view(&self) -> AddressModel {
        AddressModel { id: self.id@, hints: self.hints@ }
    }
}

impl PeerAddress {
    /// The address of `id` with the hints given.
    pub fn new(id: PeerId, hints: Vec<u8>) -> (address: PeerAddress)
        ensures
            address.id == id,
            address.hints == hints,
    {
        PeerAddress { id, hints }
    }
}

} // verus!
