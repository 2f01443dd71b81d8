//! Decimal numbers and quoted text.

use vstd::prelude::*;
use vstd::string::*;

verus! {

/// The character for a digit.
pub open spec fn digit_char(digit: nat) -> char {
    (48 + digit) as char
}

pub open spec fn is_digit(c: char) -> bool {
    '0' <= c <= '9'
}

/// `n` in decimal, without leading zeros.
pub open spec fn decimal_text(n: nat) -> Seq<char>
    decreases n,
{
    if n < 10 {
        seq![digit_char(n)]
    } else {
        decimal_text(n / 10).push(digit_char(n % 10))
    }
}

/// One digit or more, and nothing else.
pub open spec fn is_decimal(text: Seq<char>) -> bool {
    text.len() > 0 && forall|i: int| 0 <= i < text.len() ==> is_digit(#[trigger] text[i])
}

/// The number that a run of digits stands for.
pub open spec fn decimal_value(text: Seq<char>) -> nat
    decreases text.len(),
{
    if text.len() == 0 {
        0
    } else {
        (10 * decimal_value(text.drop_last()) + (text.last() as int - 48)) as nat
    }
}

/// How `str` prints itself for debugging: in double quotes, with escapes.
pub uninterp spec fn quoted_text(text: Seq<char>) -> Seq<char>;

/// The text as `<str as std::fmt::Debug>::fmt` writes it, between double quotes
/// and with its escapes. What it writes is a function of the text and is not
/// stated further.
#[verifier::external_body]
pub(crate) fn quoted(text: &str) -> (out: String)
    ensures
        out@ == quoted_text(text@),
{
    format!("{:?}", text)
}

fn digit(d: u16) -> (out: &'static str)
    requires
        d < 10,
    ensures
        out@ == seq![digit_char(d as nat)],
{
    proof {
        reveal_strlit("0");
        reveal_strlit("1");
        reveal_strlit("2");
        reveal_strlit("3");
        reveal_strlit("4");
        reveal_strlit("5");
        reveal_strlit("6");
        reveal_strlit("7");
        reveal_strlit("8");
        reveal_strlit("9");
    }
    match d {
        0 => "0",
        1 => "1",
        2 => "2",
        3 => "3",
        4 => "4",
        5 => "5",
        6 => "6",
        7 => "7",
        8 => "8",
        _ => "9",
    }
}

/// `n` in decimal.
pub fn decimal(n: u16) -> (out: String)
    ensures
        out@ == decimal_text(n as nat),
    decreases n,
{
    if n < 10 {
        digit(n).to_owned()
    } else {
        let mut out = decimal(n / 10);
        out.append(digit(n % 10));
        out
    }
}

/// The number that the text from character `from` on stands for, if that is
/// decimal and fits.
pub fn parse_decimal(text: &str, from: usize) -> (n: Option<u16>)
    requires
        from <= text@.len(),
    ensures
        match n {
            Some(n) => is_decimal(text@.skip(from as int)) && decimal_value(text@.skip(from as int))
                == n,
            None => !is_decimal(text@.skip(from as int)) || decimal_value(text@.skip(from as int))
                > u16::MAX,
        },
{
    let len: usize = text.unicode_len();
    let ghost digits = text@.skip(from as int);
    if from == len {
        return None;
    }
    let mut n: u32 = 0;
    let mut i: usize = from;
    while i < len
        invariant
            len == text@.len(),
            from <= i <= len,
            digits == text@.skip(from as int),
            n <= u16::MAX,
            n == decimal_value(digits.take(i - from)),
            forall|j: int| 0 <= j < i - from ==> is_digit(#[trigger] digits[j]),
        decreases len - i,
    {
        let c: char = text.get_char(i);
        let ghost k = i - from;
        assert(c == digits[k]);
        if c < '0' || c > '9' {
            assert(!is_digit(digits[k]));
            return None;
        }
        assert(digits.take(k + 1).drop_last() == digits.take(k));
        n = n * 10 + (c as u32 - 48);
        assert(n == decimal_value(digits.take(k + 1)));
        if n > 65535 {
            proof {
                lemma_prefix_value(digits, k + 1);
            }
            return None;
        }
        i += 1;
    }
    assert(digits.take(len - from) == digits);
    Some(n as u16)
}

/// A longer run of digits does not stand for less.
proof fn lemma_prefix_value(digits: Seq<char>, k: int)
    requires
        0 <= k <= digits.len(),
    ensures
        is_decimal(digits) ==> decimal_value(digits.take(k)) <= decimal_value(digits),
    decreases digits.len(),
{
    if k == digits.len() {
        assert(digits.take(k) == digits);
    } else if is_decimal(digits) {
        let shorter = digits.drop_last();
        assert(is_digit(digits.last()));
        if shorter.len() > 0 {
            assert(forall|i: int| 0 <= i < shorter.len() ==> shorter[i] == digits[i]);
            lemma_prefix_value(shorter, k);
        }
        assert(shorter.take(k) == digits.take(k));
    }
}

/// Reading a number's decimal text gives the number back.
pub proof fn law_decimal_reads_back(n: nat)
    ensures
        is_decimal(decimal_text(n)),
        decimal_value(decimal_text(n)) == n,
    decreases n,
{
    let text = decimal_text(n);
    if n < 10 {
        assert(text.drop_last() == Seq::<char>::empty());
        assert(decimal_value(text.drop_last()) == 0);
    } else {
        law_decimal_reads_back(n / 10);
        assert(text.drop_last() == decimal_text(n / 10));
    }
}

/// A run of digits is one or more of the characters from 0 to 9. Each digit
/// more makes ten times the number and adds its own value.
pub proof fn law_digits_count_by_ten(text: Seq<char>, c: char)
    ensures
        is_decimal(text) <==> text.len() > 0 && forall|i: int|
            0 <= i < text.len() ==> '0' <= #[trigger] text[i] <= '9',
        '0' <= c <= '9' ==> decimal_value(seq![c]) == c as int - '0' as int,
        '0' <= c <= '9' ==> decimal_value(text.push(c)) == 10 * decimal_value(text) + (c as int
            - '0' as int),
{
    assert(seq![c].drop_last() == Seq::<char>::empty());
    assert(decimal_value(Seq::<char>::empty()) == 0);
    assert(text.push(c).drop_last() == text);
    assert(forall|i: int|
        0 <= i < text.len() ==> (is_digit(text[i]) <==> '0' <= #[trigger] text[i] <= '9'));
}

/// A number is written without leading zeros: a run of digits that has none is
/// what its number is written as.
pub proof fn law_decimal_has_no_leading_zeros(text: Seq<char>)
    requires
        text.len() > 0,
        forall|i: int| 0 <= i < text.len() ==> '0' <= #[trigger] text[i] <= '9',
        text.len() > 1 ==> text[0] != '0',
    ensures
        decimal_text(decimal_value(text)) == text,
        text.len() > 1 ==> decimal_value(text) >= 10,
    decreases text.len(),
{
    let shorter = text.drop_last();
    let last = text.last();
    let d = (last as int - 48) as nat;
    assert('0' <= last <= '9');
    assert(digit_char(d) == last);
    if text.len() == 1 {
        assert(decimal_value(shorter) == 0);
        assert(decimal_value(text) == d);
        assert(text == seq![last]);
    } else {
        assert(forall|i: int| 0 <= i < shorter.len() ==> shorter[i] == text[i]);
        law_decimal_has_no_leading_zeros(shorter);
        let head = decimal_value(shorter);
        if shorter.len() == 1 {
            assert(shorter.drop_last() == Seq::<char>::empty());
            assert(decimal_value(shorter.drop_last()) == 0);
            assert('0' < shorter[0] <= '9');
            assert(head >= 1);
        }
        let n = decimal_value(text);
        assert(n == 10 * head + d);
        assert(n / 10 == head && n % 10 == d);
        assert(text == shorter.push(last));
    }
}

} // verus!
