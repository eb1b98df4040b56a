use vstd::prelude::*;

use crate::math::{abs_int, div_toward_zero, divide};
use crate::strings::chars_of;

verus! {

// ---------------------------------------------------------------------------
// Hex codec
// ---------------------------------------------------------------------------

/// The lower-case hex digit for a value below 16.
pub open spec fn hex_digit(v: int) -> char {
    if v < 10 {
        ((v + 48) as u8) as char
    } else {
        ((v + 87) as u8) as char
    }
}

/// The byte a character is encoded from: its code point truncated to eight bits.
pub open spec fn byte_of(c: char) -> int {
    (c as u32 as int) % 256
}

/// A byte as two lower-case hex digits, zero-padded.
pub open spec fn hex_of_byte(b: int) -> Seq<char> {
    seq![hex_digit(b / 16), hex_digit(b % 16)]
}

/// Hex encoding of a character sequence, one byte per character.
pub open spec fn hex_encoded(s: Seq<char>) -> Seq<char>
    decreases s.len(),
{
    if s.len() == 0 {
        Seq::empty()
    } else {
        hex_encoded(s.drop_last()) + hex_of_byte(byte_of(s.last()))
    }
}

/// A hex digit in either case.
pub open spec fn is_hex_digit(c: char) -> bool {
    ('0' <= c && c <= '9') || ('a' <= c && c <= 'f') || ('A' <= c && c <= 'F')
}

/// The value of a hex digit.
pub open spec fn hex_value(c: char) -> int {
    if '0' <= c && c <= '9' {
        c as u32 - 48
    } else if 'a' <= c && c <= 'f' {
        c as u32 - 87
    } else {
        c as u32 - 55
    }
}

/// Text that decodes: an even number of hex digits.
pub open spec fn is_hex_text(s: Seq<char>) -> bool {
    s.len() % 2 == 0 && forall|i: int| 0 <= i < s.len() ==> is_hex_digit(#[trigger] s[i])
}

/// The character decoded from the `k`-th pair of hex digits.
pub open spec fn decoded_char(s: Seq<char>, k: int) -> char {
    ((16 * hex_value(s[2 * k]) + hex_value(s[2 * k + 1])) as u8) as char
}

/// Hex decoding: each pair of digits becomes the character with that byte value.
pub open spec fn hex_decoded(s: Seq<char>) -> Seq<char> {
    Seq::new((s.len() / 2) as nat, |k: int| decoded_char(s, k))
}

/// ASCII text: every code point below 128.
pub open spec fn is_ascii_text(s: Seq<char>) -> bool {
    forall|i: int| 0 <= i < s.len() ==> #[trigger] (s[i] as u32) < 128
}

proof fn lemma_hex_digit_value(v: int)
    requires
        0 <= v < 16,
    ensures
        is_hex_digit(hex_digit(v)),
        hex_value(hex_digit(v)) == v,
{
}

proof fn lemma_ascii_char_byte(c: char)
    requires
        (c as u32) < 128,
    ensures
        (((c as u32) as u8) as char) == c,
{
}

proof fn lemma_encoded_pairs(s: Seq<char>)
    requires
        is_ascii_text(s),
    ensures
        hex_encoded(s).len() == 2 * s.len(),
        forall|k: int|
            0 <= k < s.len() ==> {
                &&& #[trigger] hex_encoded(s)[2 * k] == hex_digit(byte_of(s[k]) / 16)
                &&& hex_encoded(s)[2 * k + 1] == hex_digit(byte_of(s[k]) % 16)
            },
    decreases s.len(),
{
    if s.len() > 0 {
        let init = s.drop_last();
        assert(is_ascii_text(init)) by {
            assert forall|i: int| 0 <= i < init.len() implies #[trigger] (init[i] as u32)
                < 128 by {
                assert(init[i] == s[i]);
            }
        }
        lemma_encoded_pairs(init);
        let c = s.last();
        let b = byte_of(c);
        assert((s[s.len() - 1] as u32) < 128);
        let tail = hex_of_byte(b);
        assert(tail.len() == 2);
        assert(hex_encoded(s) == hex_encoded(init) + tail);
        let n = init.len() as int;
        assert forall|k: int| 0 <= k < s.len() implies {
            &&& #[trigger] hex_encoded(s)[2 * k] == hex_digit(byte_of(s[k]) / 16)
            &&& hex_encoded(s)[2 * k + 1] == hex_digit(byte_of(s[k]) % 16)
        } by {
            if k < n {
                assert(s[k] == init[k]);
                assert(hex_encoded(s)[2 * k] == hex_encoded(init)[2 * k]);
                assert(hex_encoded(s)[2 * k + 1] == hex_encoded(init)[2 * k + 1]);
            } else {
                assert(k == n);
                assert(hex_encoded(s)[2 * k] == tail[0]);
                assert(hex_encoded(s)[2 * k + 1] == tail[1]);
            }
        }
    }
}

/// Decoding undoes encoding for every ASCII text: each character encodes to
/// exactly two digits, so the pairs line up.
pub proof fn lemma_hex_round_trip(s: Seq<char>)
    requires
        is_ascii_text(s),
    ensures
        is_hex_text(hex_encoded(s)),
        hex_decoded(hex_encoded(s)) == s,
{
    lemma_encoded_pairs(s);
    let e = hex_encoded(s);
    assert forall|i: int| 0 <= i < e.len() implies is_hex_digit(#[trigger] e[i]) by {
        let k = i / 2;
        assert(0 <= k < s.len());
        assert(i == 2 * k || i == 2 * k + 1);
        assert((s[k] as u32) < 128);
        assert(e[2 * k] == hex_digit(byte_of(s[k]) / 16));
        lemma_hex_digit_value(byte_of(s[k]) / 16);
        lemma_hex_digit_value(byte_of(s[k]) % 16);
        if i % 2 == 0 {
            assert(e[2 * k] == e[i]);
        } else {
            assert(e[2 * k + 1] == e[i]);
        }
    }
    assert forall|k: int| 0 <= k < s.len() implies #[trigger] hex_decoded(e)[k] == s[k] by {
        assert((s[k] as u32) < 128);
        assert(e[2 * k] == hex_digit(byte_of(s[k]) / 16));
        assert(e[2 * k + 1] == hex_digit(byte_of(s[k]) % 16));
        let b = byte_of(s[k]);
        lemma_hex_digit_value(b / 16);
        lemma_hex_digit_value(b % 16);
        assert(16 * (b / 16) + b % 16 == b);
        assert(b == s[k] as u32);
        assert(16 * hex_value(e[2 * k]) + hex_value(e[2 * k + 1]) == b);
        assert(hex_decoded(e)[k] == decoded_char(e, k));
        lemma_ascii_char_byte(s[k]);
        assert((b as u8) == ((s[k] as u32) as u8));
    }
    assert(hex_decoded(e) =~= s);
}

fn hex_digit_char(v: u8) -> (c: char)
    requires
        v < 16,
    ensures
        c == hex_digit(v as int),
{
    if v < 10 {
        (v + 48) as char
    } else {
        (v + 87) as char
    }
}

fn hex_value_of(c: char) -> (v: u8)
    requires
        is_hex_digit(c),
    ensures
        v == hex_value(c),
        v < 16,
{
    let x = c as u32;
    if '0' <= c && c <= '9' {
        (x - 48) as u8
    } else if 'a' <= c && c <= 'f' {
        (x - 87) as u8
    } else {
        (x - 55) as u8
    }
}

/// Encodes each character's low byte as two lower-case hex digits.
pub fn hex_encoding(str: &str) -> (r: String)
    ensures
        r@ == hex_encoded(str@),
{
    let cs = chars_of(str);
    let mut r = String::new();
    let mut i: usize = 0;
    while i < cs.len()
        invariant
            0 <= i <= cs@.len(),
            cs@ == str@,
            r@ == hex_encoded(cs@.subrange(0, i as int)),
        decreases cs@.len() - i,
    {
        let b: u8 = ((cs[i] as u32) % 256) as u8;
        r.push(hex_digit_char(b / 16));
        r.push(hex_digit_char(b % 16));
        proof {
            let pre = cs@.subrange(0, i as int + 1);
            assert(pre.drop_last() =~= cs@.subrange(0, i as int));
            assert(pre.last() == cs@[i as int]);
        }
        i += 1;
    }
    assert(cs@.subrange(0, cs@.len() as int) =~= cs@);
    r
}

/// Decodes pairs of hex digits into the characters with those byte values.
pub fn hex_decoding(str: &str) -> (r: String)
    requires
        is_hex_text(str@),
    ensures
        r@ == hex_decoded(str@),
{
    let cs = chars_of(str);
    let mut r = String::new();
    let mut i: usize = 0;
    while i + 1 < cs.len()
        invariant
            cs@ == str@,
            is_hex_text(cs@),
            i % 2 == 0,
            i <= cs@.len(),
            r@ =~= hex_decoded(cs@).subrange(0, (i / 2) as int),
        decreases cs@.len() - i,
    {
        let high = hex_value_of(cs[i]);
        let low = hex_value_of(cs[i + 1]);
        let c = (high * 16 + low) as char;
        r.push(c);
        i += 2;
    }
    r
}

// ---------------------------------------------------------------------------
// Pagination
// ---------------------------------------------------------------------------

/// Number of page links shown: the display count, clamped to the page total.
pub open spec fn rainbow_len(total_page: int, display_count: int) -> int {
    if total_page < display_count {
        total_page
    } else {
        display_count
    }
}

/// First page number of the window of page links around `page_no`.
pub open spec fn rainbow_first(page_no: int, total_page: int, display_count: int) -> int {
    let left = display_count / 2;
    let even_shift: int = if display_count % 2 == 0 { 1 } else { 0 };
    let right = left + even_shift;
    if total_page < display_count || page_no <= left {
        1
    } else if page_no > total_page - right {
        total_page - display_count + 1
    } else {
        page_no - left + even_shift
    }
}

/// Converts a one-based page number and a page size into the half-open
/// range `[start, end)` of zero-based item indices on that page.
#[allow(non_snake_case)]
pub fn page_transToStartEnd(page: i32, size: i32) -> (r: (i32, i32))
    requires
        page > i32::MIN,
        i32::MIN <= (page - 1) * size <= i32::MAX,
        i32::MIN <= page * size <= i32::MAX,
    ensures
        r.0 == (page - 1) * size,
        r.1 == page * size,
{
    ((page - 1) * size, page * size)
}

/// Number of pages needed for `total` items at `size` items per page:
/// `(total + size - 1) / size`, rounding toward zero, which rounds up for a
/// non-negative total and a positive size.
#[allow(non_snake_case)]
pub fn page_totalPage(total: i32, size: i32) -> (r: i32)
    requires
        size != 0,
        i32::MIN <= total + size <= i32::MAX,
        i32::MIN <= total + size - 1 <= i32::MAX,
        !(total + size - 1 == i32::MIN && size == -1),
    ensures
        r == div_toward_zero(total + size - 1, size as int),
        total >= 0 && size > 0 ==> r * size >= total && (r - 1) * size < total,
{
    let num = (total + size) - 1;
    let q = divide(num as i64, size as i64);
    assert(-0x8000_0000 <= q <= 0x7fff_ffff) by (nonlinear_arith)
        requires
            q == div_toward_zero(num as int, size as int),
            size != 0,
            -0x8000_0000 <= num <= 0x7fff_ffff,
            !(num == -0x8000_0000 && size == -1),
    {
        let qa = abs_int(num as int) / abs_int(size as int);
        assert(0 <= qa <= abs_int(num as int));
        if abs_int(size as int) == 1 {
            assert(qa == abs_int(num as int));
        } else {
            assert(qa * 2 <= abs_int(num as int));
        }
    }
    proof {
        if total >= 0 && size > 0 {
            assert(q == (num as int) / (size as int));
            assert(q * size >= total && (q - 1) * size < total) by (nonlinear_arith)
                requires
                    q == (num as int) / (size as int),
                    num == total + size - 1,
                    size > 0,
                    total >= 0,
            ;
        }
    }
    q as i32
}

/// The run of page numbers to display around `page_no`: `display_count`
/// consecutive pages (fewer when there are fewer pages in total), centred on
/// the current page where possible and never running past either end.
pub fn page_rainbow(page_no: i32, total_page: i32, display_count: i32) -> (r: Vec<i32>)
    requires
        total_page >= 0,
        display_count >= 0,
    ensures
        r@.len() == rainbow_len(total_page as int, display_count as int),
        forall|i: int|
            0 <= i < r@.len() ==> r@[i] == rainbow_first(
                page_no as int,
                total_page as int,
                display_count as int,
            ) + i,
        forall|i: int| 0 <= i < r@.len() ==> 1 <= #[trigger] r@[i] <= total_page,
{
    let is_even = display_count % 2 == 0;
    let left = display_count / 2;
    let mut right = display_count / 2;
    let mut length = display_count;
    if is_even {
        right += 1;
    }
    if total_page < display_count {
        length = total_page;
    }
    if length == 0 {
        return Vec::new();
    }
    let first: i32 = if total_page >= display_count {
        if page_no <= left {
            1
        } else if page_no > total_page - right {
            total_page - display_count + 1
        } else {
            page_no - left + if is_even {
                1
            } else {
                0
            }
        }
    } else {
        1
    };
    assert(first == rainbow_first(page_no as int, total_page as int, display_count as int));
    assert(first + length - 1 <= total_page);
    let mut result: Vec<i32> = Vec::new();
    let mut i: i32 = 0;
    while i < length
        invariant
            0 <= i <= length,
            length == rainbow_len(total_page as int, display_count as int),
            first + length - 1 <= total_page,
            first >= 1,
            result@.len() == i,
            forall|k: int| 0 <= k < i ==> result@[k] == first + k,
        decreases length - i,
    {
        result.push(first + i);
        i += 1;
    }
    result
}

} // verus!
