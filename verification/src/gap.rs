//! Trusted boundary to the gap buffer that stores a line's bytes.
//!
//! The buffer holds its bytes with an unused gap region that is relocated to
//! the edit point, so edits clustered near one spot are cheap. The gap
//! buffer type itself comes from the gapbuf crate and is held opaquely here;
//! its contents are named by `gb_bytes`, and each wrapper states what the
//! called operation does to them.

use vstd::prelude::*;

verus! {

/// A gap buffer of bytes. Holds a `gapbuf::GapBuffer<u8>`; opaque to the
/// verifier, which sees only `gb_bytes`.
#[verifier::external_body]
pub struct ByteGap {
    buf: gapbuf::GapBuffer<u8>,
}

/// The bytes a gap buffer holds, in order, gap excluded.
pub uninterp spec fn gb_bytes(b: ByteGap) -> Seq<u8>;

/// Relies on GapBuffer::new: an empty buffer.
#[verifier::external_body]
pub fn gb_new() -> (r: ByteGap)
    ensures
        gb_bytes(r) == Seq::<u8>::empty(),
{
    ByteGap { buf: gapbuf::GapBuffer::new() }
}

/// Relies on Slice::len (through GapBuffer's deref): the number of elements.
#[verifier::external_body]
pub fn gb_len(b: &ByteGap) -> (r: usize)
    ensures
        r == gb_bytes(*b).len(),
{
    b.buf.len()
}

/// Relies on Slice::get (through GapBuffer's deref): the element at the
/// index, if it is in bounds.
#[verifier::external_body]
pub fn gb_get(b: &ByteGap, i: usize) -> (r: Option<u8>)
    ensures
        match r {
            Some(v) => i < gb_bytes(*b).len() && v == gb_bytes(*b)[i as int],
            None => i >= gb_bytes(*b).len(),
        },
{
    b.buf.get(i).copied()
}

/// Relies on GapBuffer::set_gap: relocates the gap to the index, leaving the
/// contents as they were.
#[verifier::external_body]
pub fn gb_set_gap(b: &mut ByteGap, i: usize)
    requires
        i <= gb_bytes(*old(b)).len(),
    ensures
        gb_bytes(*final(b)) == gb_bytes(*old(b)),
{
    b.buf.set_gap(i);
}

/// Relies on GapBuffer::insert: inserts the element at the index.
#[verifier::external_body]
pub fn gb_insert(b: &mut ByteGap, i: usize, v: u8)
    requires
        i <= gb_bytes(*old(b)).len(),
        gb_bytes(*old(b)).len() < usize::MAX,
    ensures
        gb_bytes(*final(b)) == gb_bytes(*old(b)).insert(i as int, v),
{
    b.buf.insert(i, v);
}

/// Relies on GapBuffer::remove: removes and returns the element at the
/// index.
#[verifier::external_body]
pub fn gb_remove(b: &mut ByteGap, i: usize) -> (r: u8)
    requires
        i < gb_bytes(*old(b)).len(),
    ensures
        r == gb_bytes(*old(b))[i as int],
        gb_bytes(*final(b)) == gb_bytes(*old(b)).remove(i as int),
{
    b.buf.remove(i)
}

/// Relies on GapBuffer::clear: removes all elements.
#[verifier::external_body]
pub fn gb_clear(b: &mut ByteGap)
    ensures
        gb_bytes(*final(b)) == Seq::<u8>::empty(),
{
    b.buf.clear();
}

} // verus!
