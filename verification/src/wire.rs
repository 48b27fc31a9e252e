//! Byte-level building blocks shared by the message and ticket codecs:
//! appending to a buffer, fixed-width identifiers and length prefixes.

use vstd::prelude::*;
use vstd::bytes::{
    lemma_auto_spec_u64_to_from_le_bytes, spec_u64_from_le_bytes, spec_u64_to_le_bytes,
    u64_from_le_bytes, u64_to_le_bytes,
};
use vstd::slice::slice_subrange;

verus! {

/// Width in bytes of a length prefix.
pub const LEN_WIDTH: usize = 8;

/// A length as it stands on the wire: eight bytes, least significant first.
pub open spec fn length_prefix(n: nat) -> Seq<u8> {
    spec_u64_to_le_bytes(n as u64)
}

/// The length that the eight bytes at `at` declare.
pub open spec fn declared_length(bytes: Seq<u8>, at: int) -> nat {
    spec_u64_from_le_bytes(bytes.subrange(at, at + LEN_WIDTH)) as nat
}

/// A length prefix is eight bytes wide.
pub proof fn lemma_length_prefix_len(n: nat)
    ensures
        length_prefix(n).len() == LEN_WIDTH,
{
    lemma_auto_spec_u64_to_from_le_bytes();
}

/// Reading back a length prefix gives the length, wherever the prefix stands.
pub proof fn lemma_declared_length_of_prefix(before: Seq<u8>, n: nat, after: Seq<u8>)
    requires
        n <= u64::MAX,
    ensures
        declared_length(before + length_prefix(n) + after, before.len() as int) == n,
{
    lemma_auto_spec_u64_to_from_le_bytes();
    let whole = before + length_prefix(n) + after;
    let at = before.len() as int;
    assert(whole.subrange(at, at + 8) =~= length_prefix(n));
}

/// Eight bytes are the prefix of the length they declare.
pub proof fn lemma_prefix_of_declared_length(bytes: Seq<u8>, at: int)
    requires
        0 <= at,
        at + 8 <= bytes.len(),
    ensures
        length_prefix(declared_length(bytes, at)) == bytes.subrange(at, at + 8),
        declared_length(bytes, at) <= u64::MAX,
{
    lemma_auto_spec_u64_to_from_le_bytes();
    let field = bytes.subrange(at, at + 8);
    assert(field.len() == 8);
    assert(spec_u64_to_le_bytes(spec_u64_from_le_bytes(field)) == field);
}

/// Appends every byte of `src` to `out`.
pub fn push_all(out: &mut Vec<u8>, src: &[u8])
    ensures
        final(out)@ == old(out)@ + src@,
{
    let mut i: usize = 0;
    while i < src.len()
        invariant
            i <= src@.len(),
            out@ == old(out)@ + src@.subrange(0, i as int),
        decreases src@.len() - i,
    {
        out.push(src[i]);
        i += 1;
        assert(out@ =~= old(out)@ + src@.subrange(0, i as int));
    }
    assert(src@.subrange(0, i as int) =~= src@);
}

/// Appends the prefix for a length of `n` bytes to `out`.
pub fn push_length(out: &mut Vec<u8>, n: usize)
    ensures
        final(out)@ == old(out)@ + length_prefix(n as nat),
{
    let field = u64_to_le_bytes(n as u64);
    push_all(out, field.as_slice());
}

/// Reads the length that the eight bytes at `at` declare.
pub fn read_length(bytes: &[u8], at: usize) -> (n: u64)
    requires
        at + 8 <= bytes@.len(),
    ensures
        n == declared_length(bytes@, at as int),
{
    let end = bytes.len();
    assert(at + 8 <= end);
    u64_from_le_bytes(slice_subrange(bytes, at, at + 8))
}

/// Copies the bytes from `from` up to `to` into a vector of their own.
pub fn copy_range(bytes: &[u8], from: usize, to: usize) -> (out: Vec<u8>)
    requires
        from <= to <= bytes@.len(),
    ensures
        out@ == bytes@.subrange(from as int, to as int),
{
    let mut out: Vec<u8> = Vec::new();
    push_all(&mut out, slice_subrange(bytes, from, to));
    assert(out@ =~= bytes@.subrange(from as int, to as int));
    out
}

/// Reads the 32 identifier bytes that start at `at`.
pub fn read_id(bytes: &[u8], at: usize) -> (id: [u8; 32])
    requires
        at + 32 <= bytes@.len(),
    ensures
        id@ == bytes@.subrange(at as int, at + 32),
{
    let mut id: [u8; 32] = [0u8; 32];
    let end = bytes.len();
    let mut i: usize = 0;
    while i < 32
        invariant
            i <= 32,
            at + 32 <= end,
            end == bytes@.len(),
            forall|k: int| 0 <= k < i ==> id@[k] == bytes@[at + k],
        decreases 32 - i,
    {
        id[i] = bytes[at + i];
        i += 1;
    }
    assert(id@ =~= bytes@.subrange(at as int, at + 32));
    id
}

} // verus!
