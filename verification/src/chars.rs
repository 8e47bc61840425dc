//! UTF-8 character facts shared by the line buffer and the text area:
//! encoding a character to bytes, reading one back, and the lemmas that
//! relate boundaries, splits and concatenations of encoded text.

use vstd::prelude::*;

verus! {

use vstd::utf8::{
    valid_utf8,
    decode_utf8,
    encode_utf8,
    encode_scalar,
    is_scalar,
    decode_first_scalar,
    decode_first_codepoint,
    length_of_first_scalar,
    pop_first_scalar,
    valid_first_scalar,
    valid_leading_and_continuation_bytes_first_codepoint,
    is_char_boundary,
    is_continuation_byte,
    is_leading_byte_width_1,
    is_leading_byte_width_2,
    is_leading_byte_width_3,
    char_is_scalar,
    encode_utf8_valid_utf8,
    encode_utf8_decode_utf8,
    valid_utf8_concat,
    is_char_boundary_start_end_of_seq,
    is_char_boundary_iff_not_is_continuation_byte,
    valid_utf8_split,
    decode_utf8_split,
};

/// The width in bytes of a character's UTF-8 encoding.
pub open spec fn char_width(c: char) -> nat {
    encode_scalar(c as u32).len()
}

/// Relies on char::from_u32: the character with the given scalar value.
/// Every scalar value has one, so the call cannot fail.
#[verifier::external_body]
pub fn char_from_scalar(u: u32) -> (c: char)
    requires
        is_scalar(u),
    ensures
        c as u32 == u,
{
    char::from_u32(u).unwrap()
}

/// The UTF-8 encoding of one character, as bytes.
pub fn encode_char(c: char) -> (r: Vec<u8>)
    ensures
        r@ == encode_scalar(c as u32),
        1 <= r@.len() <= 4,
{
    proof {
        char_is_scalar(c);
    }
    let u = c as u32;
    let mut r: Vec<u8> = Vec::new();
    if u <= 0x7F {
        r.push((u & 0x7F) as u8);
        proof {
            assert(r@ =~= encode_scalar(c as u32));
        }
    } else if u <= 0x7FF {
        r.push(0xC0u8 | ((u >> 6) & 0x1F) as u8);
        r.push(0x80u8 | (u & 0x3F) as u8);
        proof {
            assert(r@ =~= encode_scalar(c as u32));
        }
    } else if u <= 0xFFFF {
        r.push(0xE0u8 | ((u >> 12) & 0x0F) as u8);
        r.push(0x80u8 | ((u >> 6) & 0x3F) as u8);
        r.push(0x80u8 | (u & 0x3F) as u8);
        proof {
            assert(r@ =~= encode_scalar(c as u32));
        }
    } else {
        r.push(0xF0u8 | ((u >> 18) & 0x7) as u8);
        r.push(0x80u8 | ((u >> 12) & 0x3F) as u8);
        r.push(0x80u8 | ((u >> 6) & 0x3F) as u8);
        r.push(0x80u8 | (u & 0x3F) as u8);
        proof {
            assert(r@ =~= encode_scalar(c as u32));
        }
    }
    r
}

/// One character's encoding is the encoding of the one-character sequence:
/// valid UTF-8 that decodes back to the character.
pub proof fn lemma_encode_single(c: char)
    ensures
        encode_scalar(c as u32) == encode_utf8(seq![c]),
        valid_utf8(encode_scalar(c as u32)),
        decode_utf8(encode_scalar(c as u32)) == seq![c],
        1 <= encode_scalar(c as u32).len() <= 4,
{
    char_is_scalar(c);
    assert(seq![c].drop_first() =~= Seq::<char>::empty());
    assert(encode_utf8(Seq::<char>::empty()) =~= Seq::<u8>::empty());
    assert(encode_scalar(c as u32) + Seq::<u8>::empty() =~= encode_scalar(c as u32));
    assert(encode_utf8(seq![c]) == encode_scalar(c as u32));
    encode_utf8_valid_utf8(seq![c]);
    encode_utf8_decode_utf8(seq![c]);
}

/// The first scalar of a valid encoding is a Unicode scalar value.
pub proof fn lemma_first_scalar_is_scalar(bytes: Seq<u8>)
    requires
        valid_utf8(bytes),
        bytes.len() > 0,
    ensures
        is_scalar(decode_first_scalar(bytes)),
        1 <= length_of_first_scalar(bytes) <= bytes.len(),
{
    let b0 = bytes[0];
    if is_leading_byte_width_1(b0) {
        assert((b0 & 0x7F) as u32 <= 0x7F) by (bit_vector);
    } else if is_leading_byte_width_2(b0) {
        let b1 = bytes[1];
        assert(((((b0 & 0x1F) as u32) << 6) | ((b1 & 0x3F) as u32)) <= 0x7FF) by (bit_vector);
    } else if is_leading_byte_width_3(b0) {
        let b1 = bytes[1];
        let b2 = bytes[2];
        assert(((((b0 & 0x0F) as u32) << 12) | ((((b1 & 0x3F) as u32)) << 6) | ((b2
            & 0x3F) as u32)) <= 0xFFFF) by (bit_vector);
    } else {
    }
}

/// Concatenating two valid encodings: the whole is valid, the junction is a
/// character boundary, and the text is the two texts in order.
pub proof fn lemma_valid_concat(a: Seq<u8>, b: Seq<u8>)
    requires
        valid_utf8(a),
        valid_utf8(b),
    ensures
        valid_utf8(a + b),
        is_char_boundary(a + b, a.len() as int),
        decode_utf8(a + b) == decode_utf8(a) + decode_utf8(b),
    decreases a.len(),
{
    valid_utf8_concat(a, b);
    if a.len() == 0 {
        assert(a + b =~= b);
        is_char_boundary_start_end_of_seq(b);
        assert(decode_utf8(a) + decode_utf8(b) =~= decode_utf8(b));
    } else {
        lemma_first_scalar_is_scalar(a);
        let la = length_of_first_scalar(a);
        let ra = pop_first_scalar(a);
        assert(valid_leading_and_continuation_bytes_first_codepoint(a + b));
        assert(length_of_first_scalar(a + b) == la);
        assert(decode_first_codepoint(a + b) == decode_first_codepoint(a));
        assert(pop_first_scalar(a + b) =~= ra + b);
        lemma_valid_concat(ra, b);
        assert(decode_utf8(a + b) == seq![decode_first_scalar(a) as char] + (decode_utf8(ra)
            + decode_utf8(b)));
        assert(seq![decode_first_scalar(a) as char] + (decode_utf8(ra) + decode_utf8(b)) =~= (
        seq![decode_first_scalar(a) as char] + decode_utf8(ra)) + decode_utf8(b));
    }
}

/// After the first character of a valid encoding the next position is again
/// a boundary, and decoding steps over exactly that character.
pub proof fn lemma_first_char_step(bytes: Seq<u8>)
    requires
        valid_utf8(bytes),
        bytes.len() > 0,
    ensures
        ({
            let l = length_of_first_scalar(bytes);
            &&& 1 <= l <= bytes.len()
            &&& is_char_boundary(bytes, l)
            &&& decode_utf8(bytes) == seq![decode_first_scalar(bytes) as char] + decode_utf8(
                bytes.subrange(l, bytes.len() as int),
            )
            &&& l < bytes.len() ==> !is_continuation_byte(bytes[l])
        }),
{
    lemma_first_scalar_is_scalar(bytes);
    let l = length_of_first_scalar(bytes);
    assert(pop_first_scalar(bytes) == bytes.subrange(l, bytes.len() as int));
    if l < bytes.len() {
        is_char_boundary_iff_not_is_continuation_byte(bytes, l);
        assert(valid_utf8(pop_first_scalar(bytes)));
        assert(bytes.subrange(l, bytes.len() as int)[0] == bytes[l]);
    } else {
        is_char_boundary_start_end_of_seq(bytes);
        assert(l == bytes.len());
    }
    assert(is_char_boundary(bytes, l)) by {
        if l < bytes.len() {
            is_char_boundary_iff_not_is_continuation_byte(bytes, l);
            assert(valid_first_scalar(pop_first_scalar(bytes)) || pop_first_scalar(
                bytes,
            ).len() == 0);
            if pop_first_scalar(bytes).len() > 0 {
                assert(!is_continuation_byte(bytes[l])) by {
                    let rest = pop_first_scalar(bytes);
                    assert(rest[0] == bytes[l]);
                    assert(valid_first_scalar(rest));
                }
            }
        }
    }
}

/// How many characters are encoded before byte position `x`.
pub open spec fn chars_before(bytes: Seq<u8>, x: int) -> nat
    recommends
        valid_utf8(bytes),
        0 <= x <= bytes.len(),
{
    decode_utf8(bytes.subrange(0, x)).len()
}

/// Stepping over the character that starts at boundary `i`: the position
/// after it is a boundary again, the decoded prefix grows by that character,
/// and the text splits there.
pub proof fn lemma_boundary_step(bytes: Seq<u8>, i: int)
    requires
        valid_utf8(bytes),
        0 <= i < bytes.len(),
        is_char_boundary(bytes, i),
    ensures
        ({
            let rest = bytes.subrange(i, bytes.len() as int);
            let l = length_of_first_scalar(rest);
            let c = decode_first_scalar(rest) as char;
            &&& 1 <= l && i + l <= bytes.len()
            &&& is_char_boundary(bytes, i + l)
            &&& valid_utf8(bytes.subrange(0, i))
            &&& valid_utf8(rest)
            &&& decode_utf8(bytes.subrange(0, i + l)) == decode_utf8(
                bytes.subrange(0, i),
            ).push(c)
            &&& decode_utf8(bytes) == decode_utf8(bytes.subrange(0, i)) + decode_utf8(rest)
            &&& decode_utf8(rest) == seq![c] + decode_utf8(
                bytes.subrange(i + l, bytes.len() as int),
            )
            &&& chars_before(bytes, i + l) == chars_before(bytes, i) + 1
        }),
{
    valid_utf8_split(bytes, i);
    decode_utf8_split(bytes, i);
    let rest = bytes.subrange(i, bytes.len() as int);
    lemma_first_char_step(rest);
    let l = length_of_first_scalar(rest);
    let c = decode_first_scalar(rest) as char;
    assert(rest.subrange(l, rest.len() as int) =~= bytes.subrange(i + l, bytes.len() as int));
    assert(is_char_boundary(bytes, i + l)) by {
        if i + l < bytes.len() {
            assert(bytes[i + l] == rest[l]);
            is_char_boundary_iff_not_is_continuation_byte(bytes, i + l);
        } else {
            is_char_boundary_start_end_of_seq(bytes);
        }
    }
    valid_utf8_split(rest, l);
    decode_utf8_split(rest, l);
    let head = rest.subrange(0, l);
    assert(decode_utf8(rest) == decode_utf8(head) + decode_utf8(
        rest.subrange(l, rest.len() as int),
    ));
    assert(decode_utf8(head).len() == 1) by {
        assert(decode_utf8(rest) == seq![c] + decode_utf8(rest.subrange(l, rest.len() as int)));
    }
    assert(decode_utf8(head) =~= seq![c]) by {
        assert(decode_utf8(head)[0] == (decode_utf8(head) + decode_utf8(
            rest.subrange(l, rest.len() as int),
        ))[0]);
        assert((seq![c] + decode_utf8(rest.subrange(l, rest.len() as int)))[0] == c);
    }
    lemma_valid_concat(bytes.subrange(0, i), head);
    assert(bytes.subrange(0, i) + head =~= bytes.subrange(0, i + l));
    assert(decode_utf8(bytes.subrange(0, i + l)) =~= decode_utf8(bytes.subrange(0, i)).push(c));
}

/// Scanning backwards from the end of a character: the first non-continuation
/// byte is the boundary where the character starts, and its encoding spans
/// exactly to the scanned position.
pub proof fn lemma_backward_scan(bytes: Seq<u8>, x: int, j: int)
    requires
        valid_utf8(bytes),
        0 <= j < x <= bytes.len(),
        is_char_boundary(bytes, x),
        !is_continuation_byte(bytes[j]),
        forall|k: int| j < k < x ==> is_continuation_byte(#[trigger] bytes[k]),
    ensures
        is_char_boundary(bytes, j),
        length_of_first_scalar(bytes.subrange(j, bytes.len() as int)) == x - j,
    decreases bytes.len(),
{
    is_char_boundary_iff_not_is_continuation_byte(bytes, j);
    lemma_boundary_step(bytes, j);
    let rest = bytes.subrange(j, bytes.len() as int);
    let l = length_of_first_scalar(rest);
    if j + l < x {
        assert(is_continuation_byte(bytes[j + l]));
        is_char_boundary_iff_not_is_continuation_byte(bytes, j + l);
        assert(false);
    }
    if j + l > x {
        assert(x < bytes.len());
        is_char_boundary_iff_not_is_continuation_byte(bytes, x);
        assert(!is_continuation_byte(bytes[x]));
        assert(valid_first_scalar(rest));
        assert(is_continuation_byte(rest[x - j])) by {
            assert(1 <= x - j < l);
        }
        assert(false);
    }
}

} // verus!
