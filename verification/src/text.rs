//! Text primitives shared by the other modules: UTF-8 decoding, line
//! feeds in text and in its encoding, blank lines, comparison of string
//! slices, the span in front of a separator, and decimal numerals.

use vstd::prelude::*;
use vstd::string::StringExecFns;
use vstd::utf8::{
    char_is_scalar, decode_utf8, decode_utf8_encode_utf8, encode_scalar, encode_utf8,
    encode_utf8_decode_utf8, has_width_1_encoding, last_continuation_byte, leading_byte_width_1,
    leading_byte_width_2, leading_byte_width_3, leading_byte_width_4,
    second_last_continuation_byte, third_last_continuation_byte, valid_utf8,
};

verus! {

// ---------------------------------------------------------------------------
// UTF-8
// ---------------------------------------------------------------------------

/// Reads `bytes` as UTF-8 text, or returns `None` where they are not UTF-8.
///
/// Trusted: the body is `std::str::from_utf8`, of which this contract claims
/// what its documentation says. It succeeds exactly on the byte sequences
/// that are well-formed UTF-8, and the string slice it returns is made of
/// the very bytes that were passed in.
#[verifier::external_body]
fn utf8_text(bytes: &[u8]) -> (r: Option<&str>)
    ensures
        r is Some <==> valid_utf8(bytes@),
        r matches Some(s) ==> encode_utf8(s@) == bytes@,
{
    match std::str::from_utf8(bytes) {
        Ok(s) => Some(s),
        Err(_) => None,
    }
}

/// Decodes `bytes` into an owned string when they are well-formed UTF-8.
pub fn decode(bytes: &[u8]) -> (r: Option<String>)
    ensures
        r is Some <==> valid_utf8(bytes@),
        r matches Some(s) ==> s@ == decode_utf8(bytes@),
{
    match utf8_text(bytes) {
        Some(s) => {
            proof {
                encode_utf8_decode_utf8(s@);
            }
            Some(s.to_owned())
        },
        None => None,
    }
}

// ---------------------------------------------------------------------------
// Line feeds
// ---------------------------------------------------------------------------

/// True when `text` holds no line feed.
pub open spec fn single_line(text: Seq<char>) -> bool {
    forall|i: int| 0 <= i < text.len() ==> text[i] != '\n'
}

/// True when `bytes` hold no line feed.
pub open spec fn no_line_feed(bytes: Seq<u8>) -> bool {
    forall|i: int| 0 <= i < bytes.len() ==> bytes[i] != 0x0au8
}

proof fn lemma_narrow_byte(c: u32)
    by (bit_vector)
    requires
        has_width_1_encoding(c),
    ensures
        leading_byte_width_1(c) == 0x0au8 <==> c == 0x0au32,
{
}

proof fn lemma_wide_bytes(c: u32)
    by (bit_vector)
    ensures
        leading_byte_width_2(c) >= 0x80u8,
        leading_byte_width_3(c) >= 0x80u8,
        leading_byte_width_4(c) >= 0x80u8,
        last_continuation_byte(c) >= 0x80u8,
        second_last_continuation_byte(c) >= 0x80u8,
        third_last_continuation_byte(c) >= 0x80u8,
{
}

/// A line feed is encoded as the byte 0x0a, and no other character has
/// that byte anywhere in its encoding.
pub proof fn lemma_encode_scalar_line_feed(c: char)
    ensures
        c == '\n' ==> encode_scalar(c as u32) == seq![0x0au8],
        c != '\n' ==> no_line_feed(encode_scalar(c as u32)),
        encode_scalar(c as u32).len() >= 1,
{
    let point = c as u32;
    char_is_scalar(c);
    lemma_wide_bytes(point);
    if has_width_1_encoding(point) {
        lemma_narrow_byte(point);
    }
    if c == '\n' {
        assert(point == 0x0au32);
        assert(encode_scalar(point) =~= seq![0x0au8]);
    }
}

/// Text is a single line exactly when its UTF-8 encoding holds no line
/// feed byte.
pub proof fn lemma_encode_line_feeds(text: Seq<char>)
    ensures
        single_line(text) <==> no_line_feed(encode_utf8(text)),
    decreases text.len(),
{
    if text.len() > 0 {
        let head = encode_scalar(text[0] as u32);
        let rest = text.drop_first();
        let tail = encode_utf8(rest);
        lemma_encode_scalar_line_feed(text[0]);
        lemma_encode_line_feeds(rest);
        assert(encode_utf8(text) == head + tail);
        if single_line(text) {
            assert forall|i: int| 0 <= i < rest.len() implies rest[i] != '\n' by {
                assert(rest[i] == text[i + 1]);
            }
            assert forall|i: int| 0 <= i < (head + tail).len() implies (head + tail)[i]
                != 0x0au8 by {
                if i < head.len() {
                    assert((head + tail)[i] == head[i]);
                } else {
                    assert((head + tail)[i] == tail[i - head.len()]);
                }
            }
        }
        if no_line_feed(head + tail) {
            if text[0] == '\n' {
                assert((head + tail)[0] == 0x0au8);
            }
            assert forall|i: int| 0 <= i < tail.len() implies tail[i] != 0x0au8 by {
                assert((head + tail)[head.len() + i] == tail[i]);
            }
            assert forall|i: int| 0 <= i < text.len() implies text[i] != '\n' by {
                if i > 0 {
                    assert(rest[i - 1] == text[i]);
                }
            }
        }
    }
}

/// Bytes that are UTF-8 and hold no line feed decode to a single line.
pub proof fn lemma_decode_single_line(bytes: Seq<u8>)
    requires
        valid_utf8(bytes),
        no_line_feed(bytes),
    ensures
        single_line(decode_utf8(bytes)),
{
    decode_utf8_encode_utf8(bytes);
    lemma_encode_line_feeds(decode_utf8(bytes));
}

// ---------------------------------------------------------------------------
// Blank text
// ---------------------------------------------------------------------------

/// True for the characters with the Unicode property `White_Space`.
pub open spec fn whitespace(c: char) -> bool {
    let p = c as u32;
    ||| 0x09 <= p <= 0x0d
    ||| p == 0x20
    ||| p == 0x85
    ||| p == 0xa0
    ||| p == 0x1680
    ||| 0x2000 <= p <= 0x200a
    ||| p == 0x2028
    ||| p == 0x2029
    ||| p == 0x202f
    ||| p == 0x205f
    ||| p == 0x3000
}

/// True when nothing would be left of `text` after trimming whitespace from
/// both ends: every character of it is whitespace.
pub open spec fn blank(text: Seq<char>) -> bool {
    forall|i: int| 0 <= i < text.len() ==> whitespace(#[trigger] text[i])
}

/// Tells whether `c` is a whitespace character.
pub fn is_whitespace(c: char) -> (r: bool)
    ensures
        r == whitespace(c),
{
    let p: u32 = c as u32;
    (0x09 <= p && p <= 0x0d) || p == 0x20 || p == 0x85 || p == 0xa0 || p == 0x1680 || (0x2000 <= p
        && p <= 0x200a) || p == 0x2028 || p == 0x2029 || p == 0x202f || p == 0x205f || p == 0x3000
}

/// Tells whether `text` is empty once trimmed.
pub fn is_blank(text: &str) -> (r: bool)
    ensures
        r == blank(text@),
{
    for c in it: text.chars()
        invariant
            it.seq() == text@,
            forall|i: int| 0 <= i < it.index() ==> whitespace(#[trigger] text@[i]),
    {
        if !is_whitespace(c) {
            assert(!whitespace(text@[it.index()]));
            return false;
        }
    }
    true
}

// ---------------------------------------------------------------------------
// Comparison
// ---------------------------------------------------------------------------

/// Tells whether two byte slices hold the same bytes.
pub fn bytes_eq(a: &[u8], b: &[u8]) -> (r: bool)
    ensures
        r == (a@ == b@),
{
    if a.len() != b.len() {
        return false;
    }
    let mut i: usize = 0;
    while i < a.len()
        invariant
            i <= a.len(),
            a.len() == b.len(),
            forall|j: int| 0 <= j < i ==> a@[j] == b@[j],
        decreases a.len() - i,
    {
        if a[i] != b[i] {
            return false;
        }
        i = i + 1;
    }
    assert(a@ =~= b@);
    true
}

/// Tells whether two string slices hold the same characters.
pub fn str_eq(a: &str, b: &str) -> (r: bool)
    ensures
        r == (a@ == b@),
{
    proof {
        encode_utf8_decode_utf8(a@);
        encode_utf8_decode_utf8(b@);
    }
    bytes_eq(a.as_bytes(), b.as_bytes())
}

/// The characters of an optional string slice.
pub open spec fn text_of(text: Option<&str>) -> Option<Seq<char>> {
    match text {
        Some(t) => Some(t@),
        None => None,
    }
}

// ---------------------------------------------------------------------------
// Splitting
// ---------------------------------------------------------------------------

/// Number of elements in front of the first `stop` in `s`, or the length of
/// `s` where it holds none.
pub open spec fn span_before<T>(s: Seq<T>, stop: T) -> int
    decreases s.len(),
{
    if s.len() == 0 || s[0] == stop {
        0
    } else {
        1 + span_before(s.drop_first(), stop)
    }
}

/// The span in front of the first `stop` lies within `s`, holds no `stop`,
/// and ends at a `stop` or at the end of `s`.
pub proof fn lemma_span_holds_no_stop<T>(s: Seq<T>, stop: T)
    ensures
        0 <= span_before(s, stop) <= s.len(),
        forall|j: int| 0 <= j < span_before(s, stop) ==> s[j] != stop,
        span_before(s, stop) == s.len() || s[span_before(s, stop)] == stop,
    decreases s.len(),
{
    if s.len() > 0 && s[0] != stop {
        let rest = s.drop_first();
        lemma_span_holds_no_stop(rest, stop);
        assert forall|j: int| 0 <= j < span_before(s, stop) implies s[j] != stop by {
            if j > 0 {
                assert(rest[j - 1] == s[j]);
            }
        }
    }
}

/// A position that no `stop` precedes, and that holds a `stop` or is the
/// end, is where the span in front of the first `stop` ends.
pub proof fn lemma_span_before<T>(s: Seq<T>, stop: T, k: int)
    requires
        0 <= k <= s.len(),
        forall|j: int| 0 <= j < k ==> s[j] != stop,
        k == s.len() || s[k] == stop,
    ensures
        span_before(s, stop) == k,
    decreases k,
{
    if k > 0 {
        let rest = s.drop_first();
        assert forall|j: int| 0 <= j < k - 1 implies rest[j] != stop by {
            assert(rest[j] == s[j + 1]);
        }
        lemma_span_before(rest, stop, k - 1);
    }
}

// ---------------------------------------------------------------------------
// Decimal numerals
// ---------------------------------------------------------------------------

/// The character for the decimal digit `d`.
pub open spec fn digit(d: nat) -> char
    recommends
        d < 10,
{
    (0x30 + d) as char
}

/// The decimal numeral of `n`, without sign or leading zeros.
pub open spec fn decimal(n: nat) -> Seq<char>
    decreases n,
{
    if n < 10 {
        seq![digit(n)]
    } else {
        decimal(n / 10).push(digit(n % 10))
    }
}

/// A numeral is made of the digits `0` to `9`: it is never empty and holds
/// no line feed.
pub proof fn lemma_decimal_digits(n: nat)
    ensures
        decimal(n).len() >= 1,
        forall|i: int| 0 <= i < decimal(n).len() ==> '0' <= #[trigger] decimal(n)[i] <= '9',
        single_line(decimal(n)),
    decreases n,
{
    if n >= 10 {
        lemma_decimal_digits(n / 10);
    }
}

fn digit_str(d: u8) -> (s: &'static str)
    requires
        d < 10,
    ensures
        s@ == seq![digit(d as nat)],
{
    proof {
        reveal_strlit("0");
        reveal_strlit("1");
        reveal_strlit("2");
        reveal_strlit("3");
        reveal_strlit("4");
        reveal_strlit("5");
        reveal_strlit("6");
        reveal_strlit("7");
        reveal_strlit("8");
        reveal_strlit("9");
    }
    let s = if d == 0 {
        "0"
    } else if d == 1 {
        "1"
    } else if d == 2 {
        "2"
    } else if d == 3 {
        "3"
    } else if d == 4 {
        "4"
    } else if d == 5 {
        "5"
    } else if d == 6 {
        "6"
    } else if d == 7 {
        "7"
    } else if d == 8 {
        "8"
    } else {
        "9"
    };
    assert(s@ =~= seq![digit(d as nat)]);
    s
}

/// Appends the decimal numeral of `n` to `out`.
pub fn push_decimal(out: &mut String, n: u128)
    ensures
        final(out)@ == old(out)@ + decimal(n as nat),
    decreases n,
{
    if n >= 10 {
        push_decimal(out, n / 10);
    }
    let d: u8 = (n % 10) as u8;
    out.append(digit_str(d));
    proof {
        if n >= 10 {
            assert(old(out)@ + decimal((n / 10) as nat) + seq![digit((n % 10) as nat)] =~= old(
                out,
            )@ + decimal((n / 10) as nat).push(digit((n % 10) as nat)));
        }
    }
}

} // verus!
