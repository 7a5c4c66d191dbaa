//! Longest well-formed UTF-8 prefix of a byte string, and decoding of validated bytes.

use vstd::prelude::*;
use vstd::string::*;
use vstd::utf8::*;

verus! {

/// Length of the longest prefix of `bytes` that is well-formed UTF-8.
pub open spec fn valid_prefix_len(bytes: Seq<u8>) -> nat
    decreases bytes.len(),
{
    if bytes.len() == 0 || valid_utf8(bytes) {
        bytes.len()
    } else {
        valid_prefix_len(bytes.drop_last())
    }
}

/// `bytes` are the unfinished start of a character: some bytes behind them would make
/// a well-formed scalar that is longer than they are.
pub open spec fn unfinished(bytes: Seq<u8>) -> bool {
    bytes.len() > 0 && exists|more: Seq<u8>|
        #[trigger] valid_first_scalar(bytes + more) && length_of_first_scalar(bytes + more)
            > bytes.len()
}

/// The prefix of length `valid_prefix_len` is well-formed, and no longer prefix is.
pub proof fn lemma_valid_prefix_len(bytes: Seq<u8>)
    ensures
        valid_prefix_len(bytes) <= bytes.len(),
        valid_utf8(bytes.subrange(0, valid_prefix_len(bytes) as int)),
        forall|k: int|
            valid_prefix_len(bytes) < k <= bytes.len() ==> !valid_utf8(
                #[trigger] bytes.subrange(0, k),
            ),
    decreases bytes.len(),
{
    if bytes.len() == 0 || valid_utf8(bytes) {
        assert(bytes.subrange(0, bytes.len() as int) =~= bytes);
    } else {
        let shorter = bytes.drop_last();
        let n = valid_prefix_len(shorter) as int;
        lemma_valid_prefix_len(shorter);
        assert(shorter.subrange(0, n) =~= bytes.subrange(0, n));
        assert forall|k: int| n < k <= bytes.len() implies !valid_utf8(
            #[trigger] bytes.subrange(0, k),
        ) by {
            if k == bytes.len() {
                assert(bytes.subrange(0, k) =~= bytes);
            } else {
                assert(shorter.subrange(0, k) =~= bytes.subrange(0, k));
            }
        }
    }
}

/// A well-formed prefix that no longer prefix improves on has length `valid_prefix_len`.
pub proof fn lemma_valid_prefix_len_is(bytes: Seq<u8>, n: int)
    requires
        0 <= n <= bytes.len(),
        valid_utf8(bytes.subrange(0, n)),
        forall|k: int| n < k <= bytes.len() ==> !valid_utf8(#[trigger] bytes.subrange(0, k)),
    ensures
        valid_prefix_len(bytes) == n,
{
    lemma_valid_prefix_len(bytes);
}

/// What follows a well-formed head in a well-formed whole is well-formed too.
pub proof fn lemma_valid_utf8_tail(head: Seq<u8>, tail: Seq<u8>)
    requires
        valid_utf8(head),
        valid_utf8(head + tail),
    ensures
        valid_utf8(tail),
{
    let whole = head + tail;
    assert(whole.subrange(0, head.len() as int) =~= head);
    assert(whole.subrange(head.len() as int, whole.len() as int) =~= tail);
    if !valid_utf8(tail) {
        partial_valid_partial_invalid_utf8(whole, head.len() as int);
    }
}

/// Behind a well-formed head, the longest well-formed prefix is the head and the
/// longest well-formed prefix of the rest.
pub proof fn lemma_valid_prefix_len_after(head: Seq<u8>, rest: Seq<u8>)
    requires
        valid_utf8(head),
    ensures
        valid_prefix_len(head + rest) == head.len() + valid_prefix_len(rest),
{
    let whole = head + rest;
    let fit = valid_prefix_len(rest) as int;
    let n = head.len() + fit;
    lemma_valid_prefix_len(rest);
    assert(whole.subrange(0, n) =~= head + rest.subrange(0, fit));
    valid_utf8_concat(head, rest.subrange(0, fit));
    assert forall|k: int| n < k <= whole.len() implies !valid_utf8(
        #[trigger] whole.subrange(0, k),
    ) by {
        let more = rest.subrange(0, k - head.len());
        assert(whole.subrange(0, k) =~= head + more);
        if valid_utf8(head + more) {
            lemma_valid_utf8_tail(head, more);
        }
    }
    lemma_valid_prefix_len_is(whole, n);
}

/// In well-formed text a character ends at every position or within the three bytes
/// before it: cutting the text anywhere and then back to the end of the last complete
/// character costs fewer than four bytes.
pub proof fn lemma_valid_prefix_len_of_cut(bytes: Seq<u8>, at: int)
    requires
        valid_utf8(bytes),
        0 <= at <= bytes.len(),
    ensures
        at - 3 <= valid_prefix_len(bytes.subrange(0, at)) <= at,
    decreases bytes.len(),
{
    lemma_valid_prefix_len(bytes.subrange(0, at));
    if at >= 4 {
        let width = length_of_first_scalar(bytes);
        let first = bytes.subrange(0, width);
        let rest = pop_first_scalar(bytes);
        assert(valid_utf8(first)) by {
            reveal_with_fuel(valid_utf8, 2);
        }
        lemma_valid_prefix_len_of_cut(rest, at - width);
        assert(bytes.subrange(0, at) =~= first + rest.subrange(0, at - width));
        lemma_valid_prefix_len_after(first, rest.subrange(0, at - width));
    }
}

/// Behind the longest well-formed prefix, nothing well-formed begins.
pub proof fn lemma_rest_has_no_valid_prefix(bytes: Seq<u8>)
    ensures
        valid_prefix_len(bytes.skip(valid_prefix_len(bytes) as int)) == 0,
{
    let fit = valid_prefix_len(bytes) as int;
    lemma_valid_prefix_len(bytes);
    assert(bytes =~= bytes.subrange(0, fit) + bytes.skip(fit));
    lemma_valid_prefix_len_after(bytes.subrange(0, fit), bytes.skip(fit));
}

/// The first scalar of well-formed text is well-formed text by itself.
proof fn lemma_first_scalar_valid(bytes: Seq<u8>)
    requires
        valid_first_scalar(bytes),
    ensures
        valid_utf8(bytes.subrange(0, length_of_first_scalar(bytes))),
{
    let first = bytes.subrange(0, length_of_first_scalar(bytes));
    reveal_with_fuel(valid_utf8, 2);
    assert(forall|j: int| 0 <= j < first.len() ==> first[j] == bytes[j]);
    assert(pop_first_scalar(first) =~= Seq::<u8>::empty());
}

/// Of bytes that well-formed text begins with, what is left behind their longest
/// well-formed prefix is nothing, or the unfinished start of a character.
pub proof fn lemma_rest_unfinished(seen: Seq<u8>, coming: Seq<u8>)
    requires
        valid_utf8(seen + coming),
    ensures
        ({
            let rest = seen.skip(valid_prefix_len(seen) as int);
            rest.len() == 0 || unfinished(rest)
        }),
{
    let fit = valid_prefix_len(seen) as int;
    let rest = seen.skip(fit);
    lemma_valid_prefix_len(seen);
    if rest.len() > 0 {
        let tail = rest + coming;
        assert(seen + coming =~= seen.subrange(0, fit) + tail);
        lemma_valid_utf8_tail(seen.subrange(0, fit), tail);
        assert(valid_first_scalar(tail));
        let width = length_of_first_scalar(tail);
        if width <= rest.len() {
            lemma_first_scalar_valid(tail);
            assert(tail.subrange(0, width) =~= rest.subrange(0, width));
            valid_utf8_concat(seen.subrange(0, fit), rest.subrange(0, width));
            assert(seen.subrange(0, fit + width) =~= seen.subrange(0, fit) + rest.subrange(
                0,
                width,
            ));
            assert(false);
        }
    }
}

/// The unfinished start of a character is not well-formed text.
pub proof fn lemma_unfinished_not_valid(bytes: Seq<u8>)
    requires
        unfinished(bytes),
    ensures
        !valid_utf8(bytes),
{
    let more = choose|more: Seq<u8>|
        #[trigger] valid_first_scalar(bytes + more) && length_of_first_scalar(bytes + more)
            > bytes.len();
    assert((bytes + more)[0] == bytes[0]);
}

/// The encoding of a concatenation is the concatenation of the encodings.
pub proof fn lemma_encode_utf8_concat(a: Seq<char>, b: Seq<char>)
    ensures
        encode_utf8(a + b) == encode_utf8(a) + encode_utf8(b),
    decreases a.len(),
{
    if a.len() > 0 {
        assert((a + b).drop_first() =~= a.drop_first() + b);
        lemma_encode_utf8_concat(a.drop_first(), b);
    }
}

/// A scalar that is well-formed at the start of a prefix is well-formed at the start of
/// the whole, with the same width.
pub proof fn lemma_first_scalar_of_prefix(bytes: Seq<u8>, from: int, to: int)
    requires
        0 <= from < to <= bytes.len(),
        valid_first_scalar(bytes.subrange(from, to)),
    ensures
        valid_first_scalar(bytes.subrange(from, bytes.len() as int)),
        length_of_first_scalar(bytes.subrange(from, bytes.len() as int))
            == length_of_first_scalar(bytes.subrange(from, to)),
{
}

/// Where no well-formed scalar starts right after a well-formed prefix, no longer
/// prefix is well-formed.
proof fn lemma_scan_stops(bytes: Seq<u8>, at: int)
    requires
        0 <= at < bytes.len(),
        valid_utf8(bytes.subrange(0, at)),
        !valid_first_scalar(bytes.subrange(at, bytes.len() as int)),
    ensures
        valid_prefix_len(bytes) == at,
{
    assert forall|k: int| at < k <= bytes.len() implies !valid_utf8(
        #[trigger] bytes.subrange(0, k),
    ) by {
        let head = bytes.subrange(0, k);
        if valid_utf8(head) {
            assert(head.subrange(0, at) =~= bytes.subrange(0, at));
            if !valid_utf8(bytes.subrange(at, k)) {
                partial_valid_partial_invalid_utf8(head, at);
            }
            lemma_first_scalar_of_prefix(bytes, at, k);
        }
    }
    lemma_valid_prefix_len_is(bytes, at);
}

/// Tells whether `byte` has the form of a UTF-8 continuation byte.
fn is_continuation(byte: u8) -> (r: bool)
    ensures
        r == is_continuation_byte(byte),
{
    0x80 <= byte && byte <= 0xbf
}

/// Width in bytes of the well-formed scalar encoding that starts at `bytes[at]`, or 0
/// where none starts there, be it that `at` is no position in `bytes`.
pub fn scalar_width(bytes: &[u8], at: usize) -> (width: usize)
    ensures
        width == 0 <==> at >= bytes@.len() || !valid_first_scalar(
            bytes@.subrange(at as int, bytes@.len() as int),
        ),
        width != 0 ==> width == length_of_first_scalar(
            bytes@.subrange(at as int, bytes@.len() as int),
        ) && at + width <= bytes@.len(),
{
    if at >= bytes.len() {
        return 0;
    }
    let ghost rest = bytes@.subrange(at as int, bytes@.len() as int);
    let left: usize = bytes.len() - at;
    let b0: u8 = bytes[at];
    if b0 <= 0x7f {
        1
    } else if 0xc0 <= b0 && b0 <= 0xdf {
        if left < 2 {
            return 0;
        }
        let b1: u8 = bytes[at + 1];
        if !is_continuation(b1) {
            return 0;
        }
        let scalar: u32 = (((b0 & 0x1F) as u32) << 6) | ((b1 & 0x3f) as u32);
        assert((((b0 & 0x1F) as u32) << 6) | ((b1 & 0x3f) as u32) < 0x800) by (bit_vector);
        if 0x80 <= scalar {
            2
        } else {
            0
        }
    } else if 0xe0 <= b0 && b0 <= 0xef {
        if left < 3 {
            return 0;
        }
        let b1: u8 = bytes[at + 1];
        let b2: u8 = bytes[at + 2];
        if !is_continuation(b1) || !is_continuation(b2) {
            return 0;
        }
        let scalar: u32 = (((b0 & 0x0F) as u32) << 12) | (((b1 & 0x3f) as u32) << 6) | ((b2
            & 0x3f) as u32);
        if 0x800 <= scalar && !(0xD800 <= scalar && scalar <= 0xDFFF) {
            3
        } else {
            0
        }
    } else if 0xf0 <= b0 && b0 <= 0xf7 {
        if left < 4 {
            return 0;
        }
        let b1: u8 = bytes[at + 1];
        let b2: u8 = bytes[at + 2];
        let b3: u8 = bytes[at + 3];
        if !is_continuation(b1) || !is_continuation(b2) || !is_continuation(b3) {
            return 0;
        }
        let scalar: u32 = (((b0 & 0x07) as u32) << 18) | (((b1 & 0x3f) as u32) << 12) | (((b2
            & 0x3f) as u32) << 6) | ((b3 & 0x3f) as u32);
        if 0x10000 <= scalar && scalar <= 0x10ffff {
            4
        } else {
            0
        }
    } else {
        0
    }
}

/// Length of the longest prefix of `bytes` that is well-formed UTF-8.
pub fn valid_up_to(bytes: &[u8]) -> (n: usize)
    ensures
        n == valid_prefix_len(bytes@),
{
    let mut at: usize = 0;
    loop
        invariant_except_break
            at <= bytes@.len(),
            valid_utf8(bytes@.subrange(0, at as int)),
        ensures
            at == valid_prefix_len(bytes@),
        decreases bytes@.len() - at,
    {
        if at == bytes.len() {
            proof {
                assert(bytes@.subrange(0, at as int) =~= bytes@);
            }
            break ;
        }
        let width = scalar_width(bytes, at);
        if width == 0 {
            proof {
                lemma_scan_stops(bytes@, at as int);
            }
            break ;
        }
        proof {
            partial_valid_utf8_extend(bytes@, at as int);
        }
        at = at + width;
    }
    at
}

/// The second byte goes with the first in a well-formed scalar of three or four
/// bytes: it continues it, and keeps the scalar out of the overlong forms, out of the
/// surrogates and within Unicode.
pub open spec fn second_fits(first: u8, second: u8) -> bool {
    &&& is_continuation_byte(second)
    &&& first == 0xE0 ==> second >= 0xA0
    &&& first == 0xED ==> second <= 0x9F
    &&& first == 0xF0 ==> second >= 0x90
    &&& first == 0xF4 ==> second <= 0x8F
}

/// `bytes` are one to three bytes that begin a well-formed scalar of more bytes than
/// they are, told from the bytes themselves.
pub open spec fn begins_scalar(bytes: Seq<u8>) -> bool {
    &&& 1 <= bytes.len() <= 3
    &&& 0xC2 <= bytes[0] <= 0xF4
    &&& bytes.len() >= 2 ==> bytes[0] >= 0xE0 && second_fits(bytes[0], bytes[1])
    &&& bytes.len() >= 3 ==> bytes[0] >= 0xF0 && is_continuation_byte(bytes[2])
}

proof fn lemma_two_byte_scalars(b0: u8, b1: u8)
    by (bit_vector)
    requires
        0xC0 <= b0 <= 0xDF,
        0x80 <= b1 <= 0xBF,
    ensures
        0x80 <= ((((b0 & 0x1F) as u32) << 6) | ((b1 & 0x3F) as u32)) <==> 0xC2 <= b0,
        ((((b0 & 0x1F) as u32) << 6) | ((b1 & 0x3F) as u32)) < 0x800,
{
}

proof fn lemma_three_byte_scalars(b0: u8, b1: u8, b2: u8)
    by (bit_vector)
    requires
        0xE0 <= b0 <= 0xEF,
        0x80 <= b1 <= 0xBF,
        0x80 <= b2 <= 0xBF,
    ensures
        (0x800 <= ((((b0 & 0x0F) as u32) << 12) | (((b1 & 0x3F) as u32) << 6) | ((b2
            & 0x3F) as u32)) && !(0xD800 <= ((((b0 & 0x0F) as u32) << 12) | (((b1
            & 0x3F) as u32) << 6) | ((b2 & 0x3F) as u32)) && ((((b0 & 0x0F) as u32) << 12) | (((b1
            & 0x3F) as u32) << 6) | ((b2 & 0x3F) as u32)) <= 0xDFFF)) <==> ((b0 == 0xE0 ==> b1
            >= 0xA0) && (b0 == 0xED ==> b1 <= 0x9F)),
{
}

proof fn lemma_four_byte_scalars(b0: u8, b1: u8, b2: u8, b3: u8)
    by (bit_vector)
    requires
        0xF0 <= b0 <= 0xF7,
        0x80 <= b1 <= 0xBF,
        0x80 <= b2 <= 0xBF,
        0x80 <= b3 <= 0xBF,
    ensures
        (0x10000 <= ((((b0 & 0x07) as u32) << 18) | (((b1 & 0x3F) as u32) << 12) | (((b2
            & 0x3F) as u32) << 6) | ((b3 & 0x3F) as u32)) && ((((b0 & 0x07) as u32) << 18) | (((b1
            & 0x3F) as u32) << 12) | (((b2 & 0x3F) as u32) << 6) | ((b3 & 0x3F) as u32))
            <= 0x10FFFF) <==> (b0 <= 0xF4 && (b0 == 0xF0 ==> b1 >= 0x90) && (b0 == 0xF4 ==> b1
            <= 0x8F)),
{
}

/// The unfinished starts of characters are told from their bytes.
pub proof fn lemma_unfinished_by_bytes(bytes: Seq<u8>)
    ensures
        unfinished(bytes) <==> begins_scalar(bytes),
{
    if unfinished(bytes) {
        let more = choose|more: Seq<u8>|
            #[trigger] valid_first_scalar(bytes + more) && length_of_first_scalar(bytes + more)
                > bytes.len();
        let whole = bytes + more;
        assert(forall|i: int| 0 <= i < bytes.len() ==> whole[i] == bytes[i]);
        if is_leading_byte_width_2(whole[0]) {
            lemma_two_byte_scalars(whole[0], whole[1]);
        } else if is_leading_byte_width_3(whole[0]) {
            lemma_three_byte_scalars(whole[0], whole[1], whole[2]);
        } else if is_leading_byte_width_4(whole[0]) {
            lemma_four_byte_scalars(whole[0], whole[1], whole[2], whole[3]);
        }
        assert(begins_scalar(bytes));
    }
    if begins_scalar(bytes) {
        let b0 = bytes[0];
        let b1: u8 = if bytes.len() >= 2 {
            bytes[1]
        } else if b0 == 0xE0 {
            0xA0
        } else if b0 == 0xF0 {
            0x90
        } else {
            0x80
        };
        let b2: u8 = if bytes.len() >= 3 {
            bytes[2]
        } else {
            0x80
        };
        let whole = if b0 <= 0xDF {
            seq![b0, b1]
        } else if b0 <= 0xEF {
            seq![b0, b1, b2]
        } else {
            seq![b0, b1, b2, 0x80u8]
        };
        let more = whole.skip(bytes.len() as int);
        assert(bytes + more =~= whole);
        if b0 <= 0xDF {
            lemma_two_byte_scalars(b0, b1);
        } else if b0 <= 0xEF {
            lemma_three_byte_scalars(b0, b1, b2);
        } else {
            lemma_four_byte_scalars(b0, b1, b2, 0x80);
        }
        assert(valid_first_scalar(whole));
        assert(length_of_first_scalar(whole) > bytes.len());
        assert(valid_first_scalar(bytes + more) && length_of_first_scalar(bytes + more)
            > bytes.len());
    }
}

/// Tells whether `bytes` are the unfinished start of a character.
pub fn is_unfinished(bytes: &[u8]) -> (r: bool)
    ensures
        r == unfinished(bytes@),
{
    proof {
        lemma_unfinished_by_bytes(bytes@);
    }
    let n = bytes.len();
    if n == 0 || n > 3 {
        return false;
    }
    let b0: u8 = bytes[0];
    if b0 < 0xC2 || b0 > 0xF4 {
        return false;
    }
    if n == 1 {
        return true;
    }
    let b1: u8 = bytes[1];
    let fits = is_continuation(b1) && (b0 != 0xE0 || b1 >= 0xA0) && (b0 != 0xED || b1 <= 0x9F)
        && (b0 != 0xF0 || b1 >= 0x90) && (b0 != 0xF4 || b1 <= 0x8F);
    if b0 < 0xE0 || !fits {
        return false;
    }
    if n == 2 {
        return true;
    }
    b0 >= 0xF0 && is_continuation(bytes[2])
}

/// The description that `core::str::from_utf8` gives of its error on `bytes`, where
/// they are not well-formed UTF-8.
pub uninterp spec fn decoding_error(bytes: Seq<u8>) -> Seq<char>;

/// `core::str::from_utf8`, with its error rendered as text.
///
/// The call succeeds exactly on well-formed UTF-8, and the string slice it hands back
/// is made of the very bytes it was given. Where it fails, the error's description is
/// a function of the bytes alone, named `decoding_error`.
#[verifier::external_body]
pub(crate) fn decode(bytes: &[u8]) -> (r: Result<&str, String>)
    ensures
        r is Ok <==> valid_utf8(bytes@),
        r matches Ok(text) ==> text.spec_bytes() == bytes@,
        r matches Err(message) ==> message@ == decoding_error(bytes@),
{
    match core::str::from_utf8(bytes) {
        Ok(text) => Ok(text),
        Err(error) => Err(error.to_string()),
    }
}

} // verus!
