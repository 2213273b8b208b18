//! Characters of a string and the bytes that encode them.
//!
//! Positions are counted in characters (Unicode scalar values), while strings
//! are cut at byte indices; this module relates the two.
use vstd::prelude::*;
use vstd::utf8::*;

verus! {

/// The byte index at which character `k` of `text` begins in the UTF-8
/// encoding of `text`; the encoded length where `k` is the number of characters.
pub open spec fn byte_offset(text: Seq<char>, k: int) -> int {
    encode_utf8(text.take(k)).len() as int
}

/// The lesser of two integers.
pub open spec fn least(a: int, b: int) -> int {
    if a <= b {
        a
    } else {
        b
    }
}

/// The greater of two integers.
pub open spec fn greatest(a: int, b: int) -> int {
    if a >= b {
        a
    } else {
        b
    }
}

/// The characters of `text` from index `from` up to, not including, index `to`,
/// of those that exist.
pub open spec fn window(text: Seq<char>, from: int, to: int) -> Seq<char> {
    let lo = least(greatest(from, 0), text.len() as int);
    let hi = least(greatest(to, lo), text.len() as int);
    text.subrange(lo, hi)
}

/// The characters of `text` that a start and, optionally, a count ask for: those
/// at the `count` positions from `start` on, counted from one, of those that
/// exist; without a count, those at all positions from `start` on.
pub open spec fn asked_for(text: Seq<char>, start: i64, count: Option<i64>) -> Seq<char> {
    match count {
        Some(c) => window(text, start - 1, start - 1 + c),
        None => window(text, start - 1, text.len() as int),
    }
}

/// The index at which `get_true_start_count` stops, in characters: `count`
/// characters after `start`, or the end where `count` is negative.
pub open spec fn stop_index(text: Seq<char>, start: int, count: int) -> int {
    if count < 0 {
        text.len() as int
    } else {
        least(start + count, text.len() as int)
    }
}

/// Encoding is a homomorphism: the encoding of two texts in a row is the two
/// encodings in a row.
pub proof fn lemma_encode_concat(a: Seq<char>, b: Seq<char>)
    ensures
        encode_utf8(a + b) == encode_utf8(a) + encode_utf8(b),
    decreases a.len(),
{
    if a.len() == 0 {
        assert(a + b == b);
        assert(encode_utf8(a) + encode_utf8(b) == encode_utf8(b));
    } else {
        lemma_encode_concat(a.drop_first(), b);
        assert((a + b).drop_first() == a.drop_first() + b);
        assert((a + b)[0] == a[0]);
        let head = encode_scalar(a[0] as u32);
        assert(head + (encode_utf8(a.drop_first()) + encode_utf8(b)) == (head + encode_utf8(
            a.drop_first(),
        )) + encode_utf8(b));
    }
}

/// The encoding of a single character.
proof fn lemma_encode_one(c: char)
    ensures
        encode_utf8(seq![c]) == encode_scalar(c as u32),
        1 <= encode_scalar(c as u32).len() <= 4,
{
    assert(seq![c].drop_first() == Seq::<char>::empty());
    assert(encode_utf8(Seq::<char>::empty()) == Seq::<u8>::empty());
    assert(encode_scalar(c as u32) + Seq::<u8>::empty() == encode_scalar(c as u32));
    reveal_with_fuel(encode_utf8, 2);
}

/// Character `k` takes the bytes from its own offset to that of the next.
pub proof fn lemma_offset_step(text: Seq<char>, k: int)
    requires
        0 <= k < text.len(),
    ensures
        byte_offset(text, k + 1) == byte_offset(text, k) + encode_scalar(text[k] as u32).len(),
        1 <= encode_scalar(text[k] as u32).len() <= 4,
{
    assert(text.take(k + 1) == text.take(k) + seq![text[k]]);
    lemma_encode_concat(text.take(k), seq![text[k]]);
    lemma_encode_one(text[k]);
}

/// The first character begins at byte zero, and the end lies behind the last byte.
pub proof fn lemma_offset_ends(text: Seq<char>)
    ensures
        byte_offset(text, 0) == 0,
        byte_offset(text, text.len() as int) == encode_utf8(text).len(),
{
    assert(text.take(0) == Seq::<char>::empty());
    assert(text.take(text.len() as int) == text);
}

/// Offsets grow at least as fast as indices.
pub proof fn lemma_offset_grows(text: Seq<char>, i: int, j: int)
    requires
        0 <= i <= j <= text.len(),
    ensures
        byte_offset(text, i) + (j - i) <= byte_offset(text, j),
    decreases j - i,
{
    if i < j {
        lemma_offset_grows(text, i, j - 1);
        lemma_offset_step(text, j - 1);
    }
}

/// A text has at least as many bytes as characters.
pub proof fn lemma_chars_within_bytes(text: Seq<char>)
    ensures
        text.len() <= encode_utf8(text).len(),
{
    lemma_offset_ends(text);
    lemma_offset_grows(text, 0, text.len() as int);
}

/// The bytes between two offsets encode the characters between the two indices.
pub proof fn lemma_encode_subrange(text: Seq<char>, i: int, j: int)
    requires
        0 <= i <= j <= text.len(),
    ensures
        0 <= byte_offset(text, i) <= byte_offset(text, j) <= encode_utf8(text).len(),
        encode_utf8(text).subrange(byte_offset(text, i), byte_offset(text, j)) == encode_utf8(
            text.subrange(i, j),
        ),
{
    let n = text.len() as int;
    lemma_offset_grows(text, i, j);
    lemma_offset_grows(text, j, n);
    lemma_offset_ends(text);
    let head = text.take(i);
    let mid = text.subrange(i, j);
    let tail = text.skip(j);
    assert(text.take(j) == head + mid);
    assert(text == text.take(j) + tail);
    lemma_encode_concat(head, mid);
    lemma_encode_concat(text.take(j), tail);
    assert(encode_utf8(text).subrange(byte_offset(text, i), byte_offset(text, j)) =~= encode_utf8(
        mid,
    ));
}

/// The offset of a character is a place at which the encoding may be split.
proof fn lemma_offset_is_boundary(text: Seq<char>, k: int)
    requires
        0 <= k <= text.len(),
    ensures
        is_char_boundary(encode_utf8(text), byte_offset(text, k)),
    decreases k,
{
    let bytes = encode_utf8(text);
    encode_utf8_valid_utf8(text);
    if k == 0 {
        lemma_offset_ends(text);
    } else {
        let rest = text.drop_first();
        encode_utf8_first_scalar(text);
        assert(pop_first_scalar(bytes) =~= encode_utf8(rest));
        lemma_offset_is_boundary(rest, k - 1);
        assert(text.take(k) == seq![text[0]] + rest.take(k - 1));
        lemma_encode_concat(seq![text[0]], rest.take(k - 1));
        lemma_encode_one(text[0]);
        lemma_encode_subrange(text, 0, k);
    }
}

/// The number of bytes that encode a character.
fn encoded_width(c: char) -> (width: usize)
    ensures
        width == encode_scalar(c as u32).len(),
{
    let scalar: u32 = c as u32;
    if scalar <= 0x7F {
        1
    } else if scalar <= 0x7FF {
        2
    } else if scalar <= 0xFFFF {
        3
    } else {
        4
    }
}

/// The byte indices `(st, ed)` of the `count` characters of `input` that follow
/// its first `start` characters. A negative `count` stands for all that follow.
/// Both indices are the length of `input` where it has no more than `start`
/// characters.
pub fn get_true_start_count(input: &str, start: usize, count: i64) -> (bounds: (usize, usize))
    ensures
        bounds.0 == byte_offset(input@, least(start as int, input@.len() as int)),
        bounds.1 == byte_offset(input@, stop_index(input@, start as int, count as int)),
        bounds.0 <= bounds.1 <= encode_utf8(input@).len(),
{
    let total: usize = input.as_bytes().len();
    let mut st: usize = total;
    let mut cnt: i64 = 0;
    let mut char_cnt: usize = 0;
    let mut byte_cnt: usize = 0;
    proof {
        lemma_offset_ends(input@);
        lemma_chars_within_bytes(input@);
    }
    for c in it: input.chars()
        invariant
            it.seq() == input@,
            total == encode_utf8(input@).len(),
            char_cnt == it.index(),
            byte_cnt == byte_offset(input@, it.index() as int),
            char_cnt <= start ==> st == total && cnt == 0,
            char_cnt > start ==> st == byte_offset(input@, start as int) && 0 <= count && cnt
                == char_cnt - start && cnt <= count,
    {
        proof {
            let k = char_cnt as int;
            assert(input@[k] == c);
            lemma_offset_step(input@, k);
            lemma_encode_subrange(input@, k + 1, input@.len() as int);
            lemma_offset_ends(input@);
            lemma_chars_within_bytes(input@);
        }
        if char_cnt == start {
            st = byte_cnt;
            if count < 0 {
                return (st, total);
            }
        }
        if char_cnt >= start {
            if cnt == count {
                proof {
                    lemma_encode_subrange(input@, start as int, char_cnt as int);
                }
                return (st, byte_cnt);
            }
            cnt = cnt + 1;
        }
        char_cnt = char_cnt + 1;
        byte_cnt = byte_cnt + encoded_width(c);
    }
    proof {
        let n = input@.len() as int;
        lemma_encode_subrange(input@, least(start as int, n), n);
        lemma_offset_ends(input@);
    }
    (st, total)
}

/// The `count` characters of `text` that follow its first `start` characters;
/// all that follow where `count` is negative.
pub fn cut_chars(text: &str, start: usize, count: i64) -> (part: &str)
    ensures
        part@ == text@.subrange(
            least(start as int, text@.len() as int),
            stop_index(text@, start as int, count as int),
        ),
{
    let (st, ed) = get_true_start_count(text, start, count);
    let ghost from = least(start as int, text@.len() as int);
    let ghost to = stop_index(text@, start as int, count as int);
    proof {
        lemma_offset_is_boundary(text@, to);
        lemma_encode_subrange(text@, 0, to);
        lemma_encode_subrange(text@, from, to);
        lemma_offset_ends(text@);
    }
    let head: &str = text.split_at(ed).0;
    proof {
        assert(text@.subrange(0, to) == text@.take(to));
        encode_utf8_decode_utf8(head@);
        encode_utf8_decode_utf8(text@.take(to));
        assert(head@.take(from) == text@.take(from));
        lemma_offset_is_boundary(head@, from);
    }
    let part: &str = head.split_at(st).1;
    proof {
        encode_utf8_decode_utf8(part@);
        encode_utf8_decode_utf8(text@.subrange(from, to));
        assert(encode_utf8(part@) =~= encode_utf8(text@).subrange(st as int, ed as int));
    }
    part
}

/// The number of characters to skip and the number to take, as `cut_chars` has
/// them, for what `start` and `count` ask of `text`. No more characters are
/// skipped than `text` has bytes, and positions before the first character are
/// taken off the count.
pub(crate) fn locate(text: &str, start: i64, count: Option<i64>) -> (place: (usize, i64))
    requires
        count matches Some(c) ==> c >= 0,
    ensures
        least(place.0 as int, text@.len() as int) == least(
            greatest(start - 1, 0),
            text@.len() as int,
        ),
        text@.subrange(
            least(place.0 as int, text@.len() as int),
            stop_index(text@, place.0 as int, place.1 as int),
        ) == asked_for(text@, start, count),
{
    let total: usize = text.as_bytes().len();
    proof {
        lemma_chars_within_bytes(text@);
    }
    let skip: usize = if start <= 1 {
        0
    } else if (start - 1) as u64 >= total as u64 {
        total
    } else {
        (start - 1) as usize
    };
    let length: i64 = match count {
        None => -1,
        Some(c) => if start >= 1 {
            c
        } else if c + start >= 1 {
            c + start - 1
        } else {
            0
        },
    };
    (skip, length)
}

} // verus!
