//! The line buffer: one line of UTF-8 text stored byte by byte in a gap
//! buffer. Edits happen at a byte offset that must land on a character
//! boundary; character boundaries are not stored but recomputed from the
//! UTF-8 leading-byte patterns, at a cost bounded by four bytes. Outside of
//! an in-progress mutation the byte sequence is always valid UTF-8.

use vstd::prelude::*;

verus! {

use vstd::utf8::{
    valid_utf8,
    decode_utf8,
    encode_scalar,
    decode_first_scalar,
    length_of_first_scalar,
    is_char_boundary,
    is_continuation_byte,
    valid_first_scalar,
    is_leading_byte_width_2,
    is_leading_byte_width_3,
    is_leading_byte_width_4,
    char_u32_cast,
    encode_utf8_valid_utf8,
    encode_utf8_decode_utf8,
    is_char_boundary_start_end_of_seq,
    is_char_boundary_iff_not_is_continuation_byte,
    valid_utf8_split,
    decode_utf8_split,
};
use vstd::string::StringSliceAdditionalSpecFns;
use vstd::string::StrSliceExecFns;
use crate::gap::{ByteGap, gb_bytes, gb_new, gb_len, gb_get, gb_set_gap, gb_insert, gb_remove, gb_clear};
use crate::chars::{
    char_from_scalar,
    encode_char,
    chars_before,
    lemma_encode_single,
    lemma_first_scalar_is_scalar,
    lemma_valid_concat,
    lemma_boundary_step,
    lemma_backward_scan,
};
use crate::text::string_push;

/// One line of text: a gap buffer of bytes holding valid UTF-8.
pub struct TerminalLine {
    buffer: ByteGap,
}

impl TerminalLine {
    /// The bytes of the line, in order.
    pub closed spec fn bytes(&self) -> Seq<u8> {
        gb_bytes(self.buffer)
    }

    /// The line's bytes are valid UTF-8.
    pub open spec fn wf(&self) -> bool {
        valid_utf8(self.bytes())
    }

    /// The line's text: its bytes decoded.
    pub open spec fn text(&self) -> Seq<char> {
        decode_utf8(self.bytes())
    }

    /// The byte offset lands on a character boundary (or the end).
    pub open spec fn is_boundary(&self, x: int) -> bool {
        is_char_boundary(self.bytes(), x)
    }

    /// An empty line.
    pub fn new() -> (r: TerminalLine)
        ensures
            r.wf(),
            r.bytes() == Seq::<u8>::empty(),
            r.text() == Seq::<char>::empty(),
    {
        TerminalLine { buffer: gb_new() }
    }

    /// A line holding the given text.
    pub fn from_str(s: &str) -> (r: TerminalLine)
        ensures
            r.wf(),
            r.bytes() == s.spec_bytes(),
            r.text() == s@,
    {
        let bv = s.as_bytes_vec();
        let mut buffer = gb_new();
        let mut i: usize = 0;
        while i < bv.len()
            invariant
                0 <= i <= bv@.len(),
                gb_bytes(buffer) == bv@.subrange(0, i as int),
            decreases bv@.len() - i,
        {
            let ghost pre = gb_bytes(buffer);
            gb_insert(&mut buffer, i, bv[i]);
            proof {
                assert(pre.insert(i as int, bv@[i as int]) =~= bv@.subrange(0, i + 1));
            }
            i += 1;
        }
        proof {
            assert(bv@.subrange(0, i as int) =~= bv@);
            encode_utf8_valid_utf8(s@);
            encode_utf8_decode_utf8(s@);
        }
        TerminalLine { buffer }
    }

    /// The line's length in bytes.
    pub fn len(&self) -> (r: usize)
        ensures
            r == self.bytes().len(),
    {
        gb_len(&self.buffer)
    }

    /// Whether the line holds no bytes.
    pub fn is_empty(&self) -> (r: bool)
        ensures
            r == (self.bytes().len() == 0),
    {
        self.len() == 0
    }

    /// Removes every byte.
    pub fn clear(&mut self)
        ensures
            final(self).wf(),
            final(self).bytes() == Seq::<u8>::empty(),
            final(self).text() == Seq::<char>::empty(),
    {
        gb_clear(&mut self.buffer);
    }

    /// The character starting at byte offset `idx` and its encoded width.
    pub fn char_at(&self, idx: usize) -> (r: (char, usize))
        requires
            self.wf(),
            idx < self.bytes().len(),
            self.is_boundary(idx as int),
        ensures
            ({
                let rest = self.bytes().subrange(idx as int, self.bytes().len() as int);
                &&& r.0 as u32 == decode_first_scalar(rest)
                &&& r.1 == length_of_first_scalar(rest)
                &&& 1 <= r.1 <= 4
                &&& idx + r.1 <= self.bytes().len()
                &&& self.text() == decode_utf8(self.bytes().subrange(0, idx as int)) + seq![r.0]
                    + decode_utf8(
                    self.bytes().subrange(idx + r.1, self.bytes().len() as int),
                )
                &&& self.is_boundary(idx + r.1)
                &&& r.0 == self.text()[chars_before(self.bytes(), idx as int) as int]
            }),
    {
        let ghost bs = self.bytes();
        let ghost rest = bs.subrange(idx as int, bs.len() as int);
        let n = self.len();
        proof {
            assert(n == bs.len());
            valid_utf8_split(bs, idx as int);
            lemma_first_scalar_is_scalar(rest);
            lemma_boundary_step(bs, idx as int);
            assert(valid_first_scalar(rest));
            assert(rest[0] == bs[idx as int]);
        }
        let b0 = match gb_get(&self.buffer, idx) {
            Some(b) => b,
            None => {
                proof {
                    assert(false);
                }
                0
            },
        };
        let (v, w): (u32, usize) = if b0 < 0x80 {
            ((b0 & 0x7F) as u32, 1)
        } else if b0 < 0xE0 {
            proof {
                assert(is_leading_byte_width_2(rest[0]));
                assert(rest[1] == bs[idx + 1]);
            }
            let b1 = match gb_get(&self.buffer, idx + 1) {
                Some(b) => b,
                None => {
                    proof {
                        assert(false);
                    }
                    0
                },
            };
            ((((b0 & 0x1F) as u32) << 6) | ((b1 & 0x3F) as u32), 2)
        } else if b0 < 0xF0 {
            proof {
                assert(is_leading_byte_width_3(rest[0]));
                assert(rest[1] == bs[idx + 1]);
                assert(rest[2] == bs[idx + 2]);
            }
            let b1 = match gb_get(&self.buffer, idx + 1) {
                Some(b) => b,
                None => {
                    proof {
                        assert(false);
                    }
                    0
                },
            };
            let b2 = match gb_get(&self.buffer, idx + 2) {
                Some(b) => b,
                None => {
                    proof {
                        assert(false);
                    }
                    0
                },
            };
            ((((b0 & 0x0F) as u32) << 12) | (((b1 & 0x3F) as u32) << 6) | ((b2 & 0x3F) as u32), 3)
        } else {
            proof {
                assert(is_leading_byte_width_4(rest[0]));
                assert(rest[1] == bs[idx + 1]);
                assert(rest[2] == bs[idx + 2]);
                assert(rest[3] == bs[idx + 3]);
            }
            let b1 = match gb_get(&self.buffer, idx + 1) {
                Some(b) => b,
                None => {
                    proof {
                        assert(false);
                    }
                    0
                },
            };
            let b2 = match gb_get(&self.buffer, idx + 2) {
                Some(b) => b,
                None => {
                    proof {
                        assert(false);
                    }
                    0
                },
            };
            let b3 = match gb_get(&self.buffer, idx + 3) {
                Some(b) => b,
                None => {
                    proof {
                        assert(false);
                    }
                    0
                },
            };
            (
                (((b0 & 0x07) as u32) << 18) | (((b1 & 0x3F) as u32) << 12) | (((b2
                    & 0x3F) as u32) << 6) | ((b3 & 0x3F) as u32),
                4,
            )
        };
        proof {
            assert(v == decode_first_scalar(rest));
            assert(w == length_of_first_scalar(rest));
        }
        let c = char_from_scalar(v);
        proof {
            char_u32_cast(c, decode_first_scalar(rest));
            valid_utf8_split(bs, idx + w);
            assert(self.text()[chars_before(bs, idx as int) as int] == c) by {
                assert(decode_utf8(bs) == decode_utf8(bs.subrange(0, idx as int)) + (seq![c]
                    + decode_utf8(bs.subrange(idx + w, bs.len() as int))));
            }
            assert(decode_utf8(bs.subrange(0, idx as int)) + (seq![c] + decode_utf8(
                bs.subrange(idx + w, bs.len() as int),
            )) =~= decode_utf8(bs.subrange(0, idx as int)) + seq![c] + decode_utf8(
                bs.subrange(idx + w, bs.len() as int),
            ));
        }
        (c, w)
    }

    /// The width in bytes of the character starting at `idx`, or nothing at
    /// the end of the line.
    pub fn next_char_width(&self, idx: usize) -> (r: Option<usize>)
        requires
            self.wf(),
            self.is_boundary(idx as int),
            idx <= self.bytes().len(),
        ensures
            match r {
                Some(w) => {
                    &&& idx + w <= self.bytes().len()
                    &&& 1 <= w <= 4
                    &&& w == length_of_first_scalar(
                        self.bytes().subrange(idx as int, self.bytes().len() as int),
                    )
                    &&& self.is_boundary(idx + w)
                    &&& chars_before(self.bytes(), idx + w) == chars_before(
                        self.bytes(),
                        idx as int,
                    ) + 1
                },
                None => idx >= self.bytes().len(),
            },
    {
        if idx >= self.len() {
            return None;
        }
        proof {
            lemma_boundary_step(self.bytes(), idx as int);
        }
        let (_, w) = self.char_at(idx);
        Some(w)
    }

    /// The width in bytes of the character that ends just before `idx`, or
    /// nothing at the start of the line.
    pub fn prev_char_width(&self, idx: usize) -> (r: Option<usize>)
        requires
            self.wf(),
            self.is_boundary(idx as int),
            idx <= self.bytes().len(),
        ensures
            match r {
                Some(w) => {
                    &&& 1 <= w <= 4 && w <= idx
                    &&& self.is_boundary(idx - w)
                    &&& w == length_of_first_scalar(
                        self.bytes().subrange(idx - w, self.bytes().len() as int),
                    )
                    &&& chars_before(self.bytes(), idx as int) == chars_before(
                        self.bytes(),
                        idx - w,
                    ) + 1
                },
                None => idx == 0,
            },
    {
        if idx == 0 {
            return None;
        }
        let ghost bs = self.bytes();
        let mut j: usize = idx - 1;
        proof {
            if j > 0 || true {
                is_char_boundary_iff_not_is_continuation_byte(bs, 0);
            }
            is_char_boundary_start_end_of_seq(bs);
        }
        loop
            invariant
                self.wf(),
                bs == self.bytes(),
                0 <= j < idx <= bs.len(),
                self.is_boundary(idx as int),
                forall|k: int| j < k < idx ==> is_continuation_byte(#[trigger] bs[k]),
            ensures
                0 <= j < idx,
                !is_continuation_byte(bs[j as int]),
                forall|k: int| j < k < idx ==> is_continuation_byte(#[trigger] bs[k]),
            decreases j,
        {
            let b = match gb_get(&self.buffer, j) {
                Some(b) => b,
                None => {
                    proof {
                        assert(false);
                    }
                    0
                },
            };
            if !(0x80 <= b && b <= 0xBF) {
                break;
            }
            proof {
                if j == 0 {
                    is_char_boundary_iff_not_is_continuation_byte(bs, 0);
                    is_char_boundary_start_end_of_seq(bs);
                    assert(is_char_boundary(bs, 0));
                    assert(!is_continuation_byte(bs[0]));
                    assert(false);
                }
            }
            j = j - 1;
        }
        proof {
            lemma_backward_scan(bs, idx as int, j as int);
            lemma_boundary_step(bs, j as int);
        }
        Some(idx - j)
    }

    /// Inserts a character's encoding at byte offset `idx`, relocating the
    /// gap to the edit point first.
    pub fn insert(&mut self, idx: usize, c: char) -> (w: usize)
        requires
            old(self).wf(),
            old(self).is_boundary(idx as int),
            idx <= old(self).bytes().len(),
            old(self).bytes().len() + 4 <= usize::MAX,
        ensures
            w == encode_scalar(c as u32).len(),
            1 <= w <= 4,
            final(self).wf(),
            final(self).bytes() == old(self).bytes().subrange(0, idx as int) + encode_scalar(
                c as u32,
            ) + old(self).bytes().subrange(idx as int, old(self).bytes().len() as int),
            final(self).text() == old(self).text().insert(
                chars_before(old(self).bytes(), idx as int) as int,
                c,
            ),
    {
        let ghost bs = old(self).bytes();
        let ghost head = bs.subrange(0, idx as int);
        let ghost tail = bs.subrange(idx as int, bs.len() as int);
        let ghost enc = encode_scalar(c as u32);
        proof {
            valid_utf8_split(bs, idx as int);
            decode_utf8_split(bs, idx as int);
            lemma_encode_single(c);
        }
        gb_set_gap(&mut self.buffer, idx);
        let ev = encode_char(c);
        let mut k: usize = 0;
        while k < ev.len()
            invariant
                0 <= k <= ev@.len(),
                ev@ == enc,
                1 <= enc.len() <= 4,
                idx <= bs.len(),
                bs.len() + 4 <= usize::MAX,
                head == bs.subrange(0, idx as int),
                tail == bs.subrange(idx as int, bs.len() as int),
                gb_bytes(self.buffer) == head + enc.subrange(0, k as int) + tail,
            decreases ev@.len() - k,
        {
            let ghost pre = gb_bytes(self.buffer);
            gb_insert(&mut self.buffer, idx + k, ev[k]);
            proof {
                assert(pre.insert(idx + k, ev@[k as int]) =~= head + enc.subrange(0, k + 1)
                    + tail);
            }
            k += 1;
        }
        proof {
            assert(enc.subrange(0, enc.len() as int) =~= enc);
            assert(gb_bytes(self.buffer) == head + enc + tail);
            lemma_valid_concat(head, enc);
            lemma_valid_concat(head + enc, tail);
            assert(decode_utf8(head + enc) == decode_utf8(head) + seq![c]);
            assert(final(self).text() == (decode_utf8(head) + seq![c]) + decode_utf8(tail));
            assert((decode_utf8(head) + seq![c]) + decode_utf8(tail) =~= (decode_utf8(head)
                + decode_utf8(tail)).insert(decode_utf8(head).len() as int, c));
        }
        ev.len()
    }

    /// Appends a character at the end of the line.
    pub fn push_back(&mut self, c: char)
        requires
            old(self).wf(),
            old(self).bytes().len() + 4 <= usize::MAX,
        ensures
            final(self).wf(),
            final(self).bytes() == old(self).bytes() + encode_scalar(c as u32),
            final(self).text() == old(self).text().push(c),
    {
        let ghost bs = old(self).bytes();
        proof {
            is_char_boundary_start_end_of_seq(bs);
        }
        let n = self.len();
        let _ = self.insert(n, c);
        proof {
            assert(bs.subrange(0, bs.len() as int) =~= bs);
            assert(bs.subrange(bs.len() as int, bs.len() as int) =~= Seq::<u8>::empty());
            assert(bs + encode_scalar(c as u32) + Seq::<u8>::empty() =~= bs + encode_scalar(
                c as u32,
            ));
            assert(chars_before(bs, bs.len() as int) == old(self).text().len());
            assert(old(self).text().insert(old(self).text().len() as int, c) =~= old(
                self,
            ).text().push(c));
        }
    }

    /// Removes the character at byte offset `idx` — the one that ends at
    /// `idx` when removing backwards, the one that starts there otherwise —
    /// and returns it with its encoded width. A no-op past the end.
    pub fn remove(&mut self, idx: usize, backwards: bool) -> (r: Option<(char, usize)>)
        requires
            old(self).wf(),
            backwards ==> (idx >= old(self).bytes().len() || old(self).is_boundary(idx + 1)),
            !backwards ==> (idx >= old(self).bytes().len() || old(self).is_boundary(idx as int)),
        ensures
            final(self).wf(),
            idx >= old(self).bytes().len() ==> r is None && *final(self) == *old(self),
            idx < old(self).bytes().len() ==> match r {
                Some((c, w)) => {
                    let start = if backwards {
                        idx + 1 - w
                    } else {
                        idx as int
                    };
                    &&& 1 <= w <= 4
                    &&& 0 <= start
                    &&& start + w <= old(self).bytes().len()
                    &&& old(self).is_boundary(start)
                    &&& c as u32 == decode_first_scalar(
                        old(self).bytes().subrange(start, old(self).bytes().len() as int),
                    )
                    &&& w == length_of_first_scalar(
                        old(self).bytes().subrange(start, old(self).bytes().len() as int),
                    )
                    &&& final(self).bytes() == old(self).bytes().subrange(0, start) + old(
                        self,
                    ).bytes().subrange(start + w, old(self).bytes().len() as int)
                    &&& final(self).text() == old(self).text().remove(
                        chars_before(old(self).bytes(), start) as int,
                    )
                    &&& c == old(self).text()[chars_before(old(self).bytes(), start) as int]
                },
                None => false,
            },
    {
        let ghost bs = old(self).bytes();
        let n = self.len();
        if idx >= n {
            return None;
        }
        let start: usize = if backwards {
            match self.prev_char_width(idx + 1) {
                Some(w) => idx + 1 - w,
                None => {
                    proof {
                        assert(false);
                    }
                    0
                },
            }
        } else {
            idx
        };
        proof {
            lemma_boundary_step(bs, start as int);
        }
        let (c, w) = self.char_at(start);
        proof {
            valid_utf8_split(bs, start as int);
            decode_utf8_split(bs, start as int);
        }
        let mut k: usize = 0;
        while k < w
            invariant
                0 <= k <= w,
                start + w <= bs.len(),
                gb_bytes(self.buffer) == bs.subrange(0, start as int) + bs.subrange(
                    start + k,
                    bs.len() as int,
                ),
            decreases w - k,
        {
            let ghost pre = gb_bytes(self.buffer);
            proof {
                assert(pre.len() == bs.len() - k);
                assert(pre[start as int] == bs[start + k]);
            }
            gb_remove(&mut self.buffer, start);
            proof {
                assert(pre.remove(start as int) =~= bs.subrange(0, start as int) + bs.subrange(
                    start + k + 1,
                    bs.len() as int,
                ));
            }
            k += 1;
        }
        proof {
            valid_utf8_split(bs, start + w);
            let head = bs.subrange(0, start as int);
            let tail = bs.subrange(start + w, bs.len() as int);
            lemma_valid_concat(head, tail);
            assert(decode_utf8(bs) == decode_utf8(head) + (seq![c] + decode_utf8(tail)));
            assert(decode_utf8(head) + (seq![c] + decode_utf8(tail)) =~= decode_utf8(head)
                + seq![c] + decode_utf8(tail));
            assert(decode_utf8(head) + decode_utf8(tail) =~= (decode_utf8(head) + seq![c]
                + decode_utf8(tail)).remove(decode_utf8(head).len() as int));
        }
        Some((c, w))
    }

    /// Splits the line at byte offset `idx`: the receiver keeps the prefix
    /// and the returned line holds everything from `idx` on.
    pub fn split_off(&mut self, idx: usize) -> (r: TerminalLine)
        requires
            old(self).wf(),
            old(self).is_boundary(idx as int),
            idx <= old(self).bytes().len(),
        ensures
            final(self).wf(),
            r.wf(),
            final(self).bytes() == old(self).bytes().subrange(0, idx as int),
            r.bytes() == old(self).bytes().subrange(idx as int, old(self).bytes().len() as int),
            final(self).text() == old(self).text().subrange(
                0,
                chars_before(old(self).bytes(), idx as int) as int,
            ),
            r.text() == old(self).text().subrange(
                chars_before(old(self).bytes(), idx as int) as int,
                old(self).text().len() as int,
            ),
            old(self).text() == final(self).text() + r.text(),
    {
        let ghost bs = old(self).bytes();
        proof {
            valid_utf8_split(bs, idx as int);
            decode_utf8_split(bs, idx as int);
        }
        gb_set_gap(&mut self.buffer, idx);
        let mut target = TerminalLine::new();
        let mut moved: usize = 0;
        let total = self.len();
        while idx + moved < total
            invariant
                0 <= moved,
                idx + moved <= total == bs.len(),
                gb_bytes(self.buffer) == bs.subrange(0, idx as int) + bs.subrange(
                    idx + moved,
                    bs.len() as int,
                ),
                gb_bytes(target.buffer) == bs.subrange(idx as int, idx + moved),
            decreases total - idx - moved,
        {
            let ghost pre = gb_bytes(self.buffer);
            let ghost pret = gb_bytes(target.buffer);
            proof {
                assert(pre.len() == bs.len() - moved);
                assert(pre[idx as int] == bs[idx + moved]);
            }
            let b = gb_remove(&mut self.buffer, idx);
            gb_insert(&mut target.buffer, moved, b);
            proof {
                assert(pre.remove(idx as int) =~= bs.subrange(0, idx as int) + bs.subrange(
                    idx + moved + 1,
                    bs.len() as int,
                ));
                assert(pret.insert(moved as int, b) =~= bs.subrange(idx as int, idx + moved + 1));
            }
            moved += 1;
        }
        proof {
            assert(bs.subrange(idx + moved, bs.len() as int) =~= Seq::<u8>::empty());
            assert(bs.subrange(0, idx as int) + Seq::<u8>::empty() =~= bs.subrange(0, idx as int));
            assert(bs.subrange(idx as int, idx + moved) =~= bs.subrange(idx as int, bs.len() as int));
            let ta = decode_utf8(bs.subrange(0, idx as int));
            let tb = decode_utf8(bs.subrange(idx as int, bs.len() as int));
            assert(ta =~= (ta + tb).subrange(0, ta.len() as int));
            assert(tb =~= (ta + tb).subrange(ta.len() as int, (ta + tb).len() as int));
        }
        target
    }

    /// Moves all bytes of the other line onto the end of this one.
    pub fn append_line(&mut self, line: TerminalLine)
        requires
            old(self).wf(),
            line.wf(),
            old(self).bytes().len() + line.bytes().len() <= usize::MAX,
        ensures
            final(self).wf(),
            final(self).bytes() == old(self).bytes() + line.bytes(),
            final(self).text() == old(self).text() + line.text(),
            final(self).is_boundary(old(self).bytes().len() as int),
    {
        let ghost a = old(self).bytes();
        let ghost b = line.bytes();
        let mut other = line;
        let n = self.len();
        let m = other.len();
        let mut k: usize = 0;
        while k < m
            invariant
                0 <= k <= m == b.len(),
                n == a.len(),
                a.len() + b.len() <= usize::MAX,
                gb_bytes(self.buffer) == a + b.subrange(0, k as int),
                gb_bytes(other.buffer) == b.subrange(k as int, b.len() as int),
            decreases m - k,
        {
            let ghost pre = gb_bytes(self.buffer);
            let ghost preo = gb_bytes(other.buffer);
            proof {
                assert(preo[0] == b[k as int]);
            }
            let byte = gb_remove(&mut other.buffer, 0);
            gb_insert(&mut self.buffer, n + k, byte);
            proof {
                assert(preo.remove(0) =~= b.subrange(k + 1, b.len() as int));
                assert(pre.insert(n + k, byte) =~= a + b.subrange(0, k + 1));
            }
            k += 1;
        }
        proof {
            assert(b.subrange(0, k as int) =~= b);
            lemma_valid_concat(a, b);
        }
    }

    /// Appends a string's characters at the end of the line.
    pub fn push_str_back(&mut self, s: &str)
        requires
            old(self).wf(),
            old(self).bytes().len() + s.spec_bytes().len() <= usize::MAX,
        ensures
            final(self).wf(),
            final(self).bytes() == old(self).bytes() + s.spec_bytes(),
            final(self).text() == old(self).text() + s@,
    {
        let ghost a = old(self).bytes();
        let ghost sb = s.spec_bytes();
        let bv = s.as_bytes_vec();
        let n = self.len();
        let mut k: usize = 0;
        while k < bv.len()
            invariant
                0 <= k <= bv@.len(),
                bv@ == sb,
                n == a.len(),
                a.len() + sb.len() <= usize::MAX,
                gb_bytes(self.buffer) == a + sb.subrange(0, k as int),
            decreases bv@.len() - k,
        {
            let ghost pre = gb_bytes(self.buffer);
            gb_insert(&mut self.buffer, n + k, bv[k]);
            proof {
                assert(pre.insert(n + k, bv@[k as int]) =~= a + sb.subrange(0, k + 1));
            }
            k += 1;
        }
        proof {
            assert(sb.subrange(0, k as int) =~= sb);
            encode_utf8_valid_utf8(s@);
            encode_utf8_decode_utf8(s@);
            lemma_valid_concat(a, sb);
        }
    }

    /// The nearest character boundary at or before byte position `x`,
    /// clamped to the line's length.
    pub fn floor_boundary(&self, x: usize) -> (r: usize)
        requires
            self.wf(),
        ensures
            r <= x,
            r <= self.bytes().len(),
            self.is_boundary(r as int),
            x <= self.bytes().len() && self.is_boundary(x as int) ==> r == x,
            x >= self.bytes().len() ==> r == self.bytes().len(),
            forall|b: int| r < b <= x && b <= self.bytes().len() ==> !self.is_boundary(b),
    {
        let ghost bs = self.bytes();
        let n = self.len();
        proof {
            is_char_boundary_start_end_of_seq(bs);
        }
        let m = if x < n {
            x
        } else {
            n
        };
        if m == n {
            return m;
        }
        let mut j: usize = m;
        proof {
            if x < bs.len() {
                is_char_boundary_iff_not_is_continuation_byte(bs, x as int);
            }
        }
        loop
            invariant
                self.wf(),
                bs == self.bytes(),
                0 <= j <= m < bs.len(),
                forall|k: int| j < k <= m ==> is_continuation_byte(#[trigger] bs[k]),
            ensures
                0 <= j <= m,
                !is_continuation_byte(bs[j as int]),
                forall|k: int| j < k <= m ==> is_continuation_byte(#[trigger] bs[k]),
            decreases j,
        {
            let b = match gb_get(&self.buffer, j) {
                Some(b) => b,
                None => {
                    proof {
                        assert(false);
                    }
                    0
                },
            };
            if !(0x80 <= b && b <= 0xBF) {
                break;
            }
            proof {
                if j == 0 {
                    is_char_boundary_iff_not_is_continuation_byte(bs, 0);
                    is_char_boundary_start_end_of_seq(bs);
                    assert(false);
                }
            }
            j = j - 1;
        }
        proof {
            is_char_boundary_iff_not_is_continuation_byte(bs, j as int);
            if x < bs.len() && self.is_boundary(x as int) {
                assert(!is_continuation_byte(bs[x as int]));
            }
            assert forall|b: int| j < b <= x && b <= bs.len() implies !self.is_boundary(b) by {
                assert(b <= m);
                assert(is_continuation_byte(bs[b]));
                is_char_boundary_iff_not_is_continuation_byte(bs, b);
            }
        }
        j
    }

    /// How many characters stand before byte position `x`.
    pub fn chars_to(&self, x: usize) -> (r: usize)
        requires
            self.wf(),
            self.is_boundary(x as int),
            x <= self.bytes().len(),
        ensures
            r == chars_before(self.bytes(), x as int),
    {
        let ghost bs = self.bytes();
        proof {
            is_char_boundary_start_end_of_seq(bs);
            assert(bs.subrange(0, 0) =~= Seq::<u8>::empty());
        }
        let mut i: usize = 0;
        let mut count: usize = 0;
        while i < x
            invariant
                self.wf(),
                bs == self.bytes(),
                0 <= i <= x <= bs.len(),
                self.is_boundary(i as int),
                self.is_boundary(x as int),
                count == chars_before(bs, i as int),
                count <= i,
            decreases x - i,
        {
            proof {
                lemma_boundary_step(bs, i as int);
            }
            let (_, w) = self.char_at(i);
            proof {
                if i + w > x {
                    let rest = bs.subrange(i as int, bs.len() as int);
                    assert(valid_first_scalar(rest));
                    assert(is_continuation_byte(bs[x as int])) by {
                        assert(rest[x - i] == bs[x as int]);
                    }
                    is_char_boundary_iff_not_is_continuation_byte(bs, x as int);
                    assert(false);
                }
            }
            i += w;
            count += 1;
        }
        count
    }

    /// The line's text as a string.
    pub fn to_string(&self) -> (r: String)
        requires
            self.wf(),
        ensures
            r@ == self.text(),
    {
        let ghost bs = self.bytes();
        proof {
            is_char_boundary_start_end_of_seq(bs);
            assert(bs.subrange(0, 0) =~= Seq::<u8>::empty());
        }
        let mut r = String::new();
        let mut i: usize = 0;
        let n = self.len();
        while i < n
            invariant
                self.wf(),
                bs == self.bytes(),
                0 <= i <= n == bs.len(),
                self.is_boundary(i as int),
                r@ == decode_utf8(bs.subrange(0, i as int)),
            decreases n - i,
        {
            proof {
                lemma_boundary_step(bs, i as int);
            }
            let (c, w) = self.char_at(i);
            string_push(&mut r, c);
            i += w;
        }
        proof {
            assert(bs.subrange(0, i as int) =~= bs);
        }
        r
    }
}

} // verus!
