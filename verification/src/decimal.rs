//! Signed decimal text: the form in which page numbers travel inside cursors
//! and row identifiers travel inside GraphQL `ID` values.
//!
//! The accepted grammar is an optional `+` or `-` followed by one or more
//! ASCII digits; nothing else, not even surrounding blanks. The written form is
//! the shortest one: a `-` for negative numbers, no `+`, no leading zeros.

use vstd::prelude::*;

verus! {

/// Whether `c` is one of the ten ASCII digits.
pub open spec fn is_digit(c: char) -> bool {
    '0' <= c && c <= '9'
}

/// The number a digit stands for.
pub open spec fn digit_value(c: char) -> nat {
    (c as int - '0' as int) as nat
}

/// The digit that stands for `d`, for `0 <= d <= 9`.
pub open spec fn digit_char(d: nat) -> char {
    if d == 0 {
        '0'
    } else if d == 1 {
        '1'
    } else if d == 2 {
        '2'
    } else if d == 3 {
        '3'
    } else if d == 4 {
        '4'
    } else if d == 5 {
        '5'
    } else if d == 6 {
        '6'
    } else if d == 7 {
        '7'
    } else if d == 8 {
        '8'
    } else {
        '9'
    }
}

/// Whether every character of `text` is a digit.
pub open spec fn all_digits(text: Seq<char>) -> bool {
    forall|i: int| 0 <= i < text.len() ==> is_digit(#[trigger] text[i])
}

/// The number that a run of digits denotes, most significant digit first.
/// The empty run denotes zero.
pub open spec fn digits_value(text: Seq<char>) -> nat
    decreases text.len(),
{
    if text.len() == 0 {
        0
    } else {
        10 * digits_value(text.drop_last()) + digit_value(text.last())
    }
}

/// Whether `text` begins with a sign.
pub open spec fn has_sign(text: Seq<char>) -> bool {
    text.len() > 0 && (text[0] == '-' || text[0] == '+')
}

/// The digits of `text`: all of it but a leading sign.
pub open spec fn digits_part(text: Seq<char>) -> Seq<char> {
    if has_sign(text) {
        text.subrange(1, text.len() as int)
    } else {
        text
    }
}

/// The integer that `text` denotes, or `None` where `text` is not an optional
/// sign followed by at least one digit.
pub open spec fn integer_of_text(text: Seq<char>) -> Option<int> {
    let digits = digits_part(text);
    if digits.len() == 0 || !all_digits(digits) {
        None
    } else if text[0] == '-' {
        Some(-(digits_value(digits) as int))
    } else {
        Some(digits_value(digits) as int)
    }
}

/// The 64-bit integer that `text` denotes, or `None` where it denotes none or
/// one that does not fit.
pub open spec fn i64_of_text(text: Seq<char>) -> Option<i64> {
    match integer_of_text(text) {
        Some(v) => if i64::MIN <= v <= i64::MAX {
            Some(v as i64)
        } else {
            None
        },
        None => None,
    }
}

/// The digits of `n`, most significant first, without leading zeros.
pub open spec fn natural_text(n: nat) -> Seq<char>
    decreases n,
{
    if n < 10 {
        seq![digit_char(n)]
    } else {
        natural_text(n / 10).push(digit_char(n % 10))
    }
}

/// The written form of `n`.
pub open spec fn integer_text(n: int) -> Seq<char> {
    if n < 0 {
        seq!['-'] + natural_text((-n) as nat)
    } else {
        natural_text(n as nat)
    }
}

/// Reading one more digit multiplies by ten and adds the digit.
pub proof fn lemma_digits_value_step(text: Seq<char>, k: int)
    requires
        0 <= k < text.len(),
    ensures
        digits_value(text.subrange(0, k + 1)) == 10 * digits_value(text.subrange(0, k))
            + digit_value(text[k]),
{
    let longer = text.subrange(0, k + 1);
    assert(longer.drop_last() =~= text.subrange(0, k));
    assert(longer.last() == text[k]);
}

/// A run of digits denotes at least what any of its prefixes denotes.
pub proof fn lemma_digits_value_prefix(text: Seq<char>, k: int)
    requires
        0 <= k <= text.len(),
    ensures
        digits_value(text.subrange(0, k)) <= digits_value(text),
    decreases text.len() - k,
{
    if k == text.len() {
        assert(text.subrange(0, k) =~= text);
    } else {
        lemma_digits_value_step(text, k);
        lemma_digits_value_prefix(text, k + 1);
    }
}

/// The written form of a natural number is a non-empty run of digits that
/// denotes that number.
pub proof fn lemma_natural_text(n: nat)
    ensures
        natural_text(n).len() > 0,
        all_digits(natural_text(n)),
        digits_value(natural_text(n)) == n,
    decreases n,
{
    if n < 10 {
        let text = natural_text(n);
        assert(text.drop_last() =~= Seq::<char>::empty());
        assert(digits_value(text.drop_last()) == 0);
        assert(text.last() == digit_char(n));
    } else {
        lemma_natural_text(n / 10);
        let shorter = natural_text(n / 10);
        let text = natural_text(n);
        assert(text.drop_last() =~= shorter);
        assert(text.last() == digit_char(n % 10));
        assert forall|i: int| 0 <= i < text.len() implies is_digit(#[trigger] text[i]) by {
            if i < shorter.len() {
                assert(text[i] == shorter[i]);
            }
        }
    }
}

/// Reading back what was written gives the number that was written.
pub proof fn lemma_text_round_trip(n: int)
    ensures
        integer_of_text(integer_text(n)) == Some(n),
{
    if n < 0 {
        let digits = natural_text((-n) as nat);
        lemma_natural_text((-n) as nat);
        let text = integer_text(n);
        assert(text[0] == '-');
        assert(digits_part(text) =~= digits);
    } else {
        lemma_natural_text(n as nat);
        let text = integer_text(n);
        assert(is_digit(text[0]));
        assert(digits_part(text) == text);
    }
}

/// A text with a character outside ASCII denotes no integer.
proof fn lemma_not_ascii_not_integer(text: Seq<char>)
    requires
        !vstd::utf8::is_ascii_chars(text),
    ensures
        integer_of_text(text) is None,
{
    let i = choose|i: int| 0 <= i < text.len() && !('\0' <= #[trigger] text[i] <= '\u{7f}');
    let digits = digits_part(text);
    if has_sign(text) {
        assert(i >= 1);
        assert(digits[i - 1] == text[i]);
        assert(!is_digit(digits[i - 1]));
    } else {
        assert(!is_digit(digits[i]));
    }
}

/// The one-character text of a digit.
fn digit_str(d: u64) -> (text: &'static str)
    requires
        d < 10,
    ensures
        text@ == seq![digit_char(d as nat)],
{
    proof {
        reveal_strlit("0");
        reveal_strlit("1");
        reveal_strlit("2");
        reveal_strlit("3");
        reveal_strlit("4");
        reveal_strlit("5");
        reveal_strlit("6");
        reveal_strlit("7");
        reveal_strlit("8");
        reveal_strlit("9");
    }
    let text = if d == 0 {
        "0"
    } else if d == 1 {
        "1"
    } else if d == 2 {
        "2"
    } else if d == 3 {
        "3"
    } else if d == 4 {
        "4"
    } else if d == 5 {
        "5"
    } else if d == 6 {
        "6"
    } else if d == 7 {
        "7"
    } else if d == 8 {
        "8"
    } else {
        "9"
    };
    assert(text@ =~= seq![digit_char(d as nat)]);
    text
}

/// Appends the digits of `n` to `out`.
fn push_natural(n: u64, out: &mut String)
    ensures
        final(out)@ == old(out)@ + natural_text(n as nat),
    decreases n,
{
    if n >= 10 {
        push_natural(n / 10, out);
    }
    out.append(digit_str(n % 10));
    assert(out@ =~= old(out)@ + natural_text(n as nat));
}

/// Writes `n` in decimal.
pub fn format_i64(n: i64) -> (text: String)
    ensures
        text@ == integer_text(n as int),
{
    let mut out = String::new();
    if n < 0 {
        proof {
            reveal_strlit("-");
        }
        out.append("-");
        assert(out@ =~= seq!['-']);
        let magnitude: u64 = (-(n + 1)) as u64 + 1;
        push_natural(magnitude, &mut out);
    } else {
        push_natural(n as u64, &mut out);
        assert(out@ =~= natural_text(n as nat));
    }
    out
}

/// Reads a decimal integer: an optional sign, then digits and nothing else.
/// Gives `None` for any other text and for a number that does not fit 64 bits.
pub fn parse_i64(text: &str) -> (parsed: Option<i64>)
    ensures
        parsed == i64_of_text(text@),
{
    if !text.is_ascii() {
        proof {
            lemma_not_ascii_not_integer(text@);
        }
        return None;
    }
    let bytes = text.as_bytes();
    proof {
        vstd::string::is_ascii_spec_bytes(text);
    }
    let n = bytes.len();
    if n == 0 {
        return None;
    }
    let negative = bytes[0] == 45u8;
    let start: usize = if negative || bytes[0] == 43u8 {
        1
    } else {
        0
    };
    assert(has_sign(text@) <==> start == 1);
    if start == n {
        return None;
    }
    let ghost digits = digits_part(text@);
    assert(digits =~= text@.subrange(start as int, n as int));
    let limit: u64 = if negative {
        9223372036854775808u64
    } else {
        9223372036854775807u64
    };
    let mut magnitude: u64 = 0;
    let mut i: usize = start;
    assert(digits.subrange(0, 0) =~= Seq::<char>::empty());
    while i < n
        invariant
            start <= i <= n,
            n == bytes.len(),
            n == text@.len(),
            forall|j: int| 0 <= j < n ==> bytes@[j] == text@[j] as u8,
            vstd::utf8::is_ascii_chars(text@),
            digits == text@.subrange(start as int, n as int),
            all_digits(digits.subrange(0, i - start)),
            magnitude == digits_value(digits.subrange(0, i - start)),
            magnitude <= limit,
            digits == digits_part(text@),
            negative == (text@[0] == '-'),
            limit == if negative {
                9223372036854775808u64
            } else {
                9223372036854775807u64
            },
        decreases n - i,
    {
        let byte = bytes[i];
        let ghost c = text@[i as int];
        assert(c == digits[i - start]);
        assert(byte == c as u8);
        assert('\0' <= c <= '\u{7f}');
        if byte < 48u8 || byte > 57u8 {
            assert(!is_digit(digits[i - start]));
            return None;
        }
        assert(is_digit(c));
        let digit = (byte - 48u8) as u64;
        assert(digit == digit_value(c));
        proof {
            lemma_digits_value_step(digits, i - start);
        }
        if magnitude > (limit - digit) / 10 {
            proof {
                lemma_digits_value_prefix(digits, i - start + 1);
                assert(digits_value(digits) > limit);
            }
            return None;
        }
        magnitude = magnitude * 10 + digit;
        assert forall|j: int| 0 <= j < i + 1 - start implies is_digit(
            #[trigger] digits.subrange(0, i + 1 - start)[j],
        ) by {
            if j < i - start {
                assert(digits.subrange(0, i - start)[j] == digits[j]);
            }
        }
        i = i + 1;
    }
    assert(digits.subrange(0, n - start) =~= digits);
    if negative {
        if magnitude == 9223372036854775808u64 {
            Some(i64::MIN)
        } else {
            Some(-(magnitude as i64))
        }
    } else {
        Some(magnitude as i64)
    }
}

} // verus!
