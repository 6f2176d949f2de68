//! Character-level helpers on strings: char access, comparison, ASCII case,
//! and the decimal notation of unsigned 16-bit numbers.

use vstd::prelude::*;
use vstd::string::*;

verus! {

/// The characters of `s`, in order.
pub fn chars_of(s: &str) -> (r: Vec<char>)
    ensures
        r@ == s@,
{
    let mut out: Vec<char> = Vec::new();
    for c in it: s.chars()
        invariant
            it.seq() == s@,
            out@ == it.seq().take(it.index()),
    {
        out.push(c);
    }
    out
}

/// Appends one character to a string.
///
/// Trusted: calls `String::push`, which std documents as appending the
/// character to the end of the string.
#[verifier::external_body]
pub(crate) fn push_char(s: &mut String, c: char)
    ensures
        final(s)@ == old(s)@.push(c),
{
    s.push(c);
}

/// Compares two string slices by their characters.
pub fn str_eq(a: &str, b: &str) -> (r: bool)
    ensures
        r == (a@ == b@),
{
    String::from_str(a) == String::from_str(b)
}

/// Whether `c` is an ASCII character.
pub open spec fn is_ascii_char(c: char) -> bool {
    (c as u32) < 128
}

/// ASCII lowercase of one character: `A`..=`Z` are lowered, every other
/// character is kept.
pub open spec fn ascii_lower_char(c: char) -> char {
    if 'A' <= c && c <= 'Z' {
        ((c as u32) + 32) as char
    } else {
        c
    }
}

/// What `str::to_lowercase` returns for `s` (the full Unicode lowercase
/// mapping of every character).
pub uninterp spec fn lowercase_of(s: Seq<char>) -> Seq<char>;

/// The Unicode lowercase of `s`.
///
/// Trusted: calls `str::to_lowercase`. Its result is named `lowercase_of`;
/// for a string made of ASCII characters only, std documents that every
/// character maps to its ASCII lowercase (`A`..=`Z` lowered, the rest
/// unchanged), which is stated too. For other characters the Unicode tables
/// decide and nothing more is stated.
#[verifier::external_body]
pub(crate) fn to_lowercase(s: &str) -> (r: String)
    ensures
        r@ == lowercase_of(s@),
        (forall|i: int| 0 <= i < s@.len() ==> is_ascii_char(#[trigger] s@[i])) ==> r@
            == s@.map_values(|c: char| ascii_lower_char(c)),
{
    s.to_lowercase()
}

/// Whether `c` is a decimal digit `0`..=`9`.
pub open spec fn is_digit(c: char) -> bool {
    '0' <= c && c <= '9'
}

/// Value of a decimal digit character.
pub open spec fn digit_value(c: char) -> nat {
    ((c as u32) - ('0' as u32)) as nat
}

/// The character of a decimal digit `d < 10`.
pub open spec fn digit_char(d: nat) -> char {
    (('0' as u32) + d) as char
}

/// Whether every character of `s` is a decimal digit.
pub open spec fn all_digits(s: Seq<char>) -> bool {
    forall|i: int| 0 <= i < s.len() ==> is_digit(#[trigger] s[i])
}

/// Value of a string of decimal digits, most significant first.
pub open spec fn digits_value(s: Seq<char>) -> nat
    decreases s.len(),
{
    if s.len() == 0 {
        0
    } else {
        digits_value(s.drop_last()) * 10 + digit_value(s.last())
    }
}

/// Decimal notation of `n`, without sign or leading zeros.
pub open spec fn decimal(n: nat) -> Seq<char>
    decreases n,
{
    if n < 10 {
        seq![digit_char(n)]
    } else {
        decimal(n / 10).push(digit_char(n % 10))
    }
}

/// What `u16::from_str` accepts: an optional `+` followed by at least one
/// decimal digit, whose value fits in 16 bits.
pub open spec fn parse_u16(s: Seq<char>) -> Option<u16> {
    let digits = if s.len() > 0 && s[0] == '+' {
        s.drop_first()
    } else {
        s
    };
    if digits.len() > 0 && all_digits(digits) && digits_value(digits) <= u16::MAX {
        Some(digits_value(digits) as u16)
    } else {
        None
    }
}

proof fn lemma_digits_value_grows(s: Seq<char>, k: int)
    requires
        0 <= k <= s.len(),
        all_digits(s),
    ensures
        digits_value(s.take(k)) <= digits_value(s),
    decreases s.len() - k,
{
    if k < s.len() {
        lemma_digits_value_grows(s, k + 1);
        assert(s.take(k + 1).drop_last() == s.take(k));
    } else {
        assert(s.take(k) == s);
    }
}

/// Parses `s[start..end]` the way `u16::from_str` parses that slice.
pub fn parse_u16_slice(s: &Vec<char>, start: usize, end: usize) -> (r: Option<u16>)
    requires
        start <= end <= s@.len(),
    ensures
        r == parse_u16(s@.subrange(start as int, end as int)),
{
    let ghost whole = s@.subrange(start as int, end as int);
    let mut i = start;
    if i < end && s[i] == '+' {
        i = i + 1;
    }
    let ghost digits = s@.subrange(i as int, end as int);
    assert(digits == (if whole.len() > 0 && whole[0] == '+' {
        whole.drop_first()
    } else {
        whole
    }));
    if i == end {
        return None;
    }
    let first = i;
    let mut value: u32 = 0;
    while i < end
        invariant
            first <= i <= end <= s@.len(),
            digits == s@.subrange(first as int, end as int),
            whole == s@.subrange(start as int, end as int),
            digits == (if whole.len() > 0 && whole[0] == '+' {
                whole.drop_first()
            } else {
                whole
            }),
            digits.len() > 0,
            value <= u16::MAX,
            all_digits(s@.subrange(first as int, i as int)),
            value == digits_value(s@.subrange(first as int, i as int)),
        decreases end - i,
    {
        let c = s[i];
        if !('0' <= c && c <= '9') {
            assert(digits[i - first] == c);
            return None;
        }
        let d = (c as u32) - ('0' as u32);
        let next = value * 10 + d;
        proof {
            let pre = s@.subrange(first as int, i as int);
            let post = s@.subrange(first as int, i + 1);
            assert(post.drop_last() == pre);
            assert(all_digits(post));
        }
        if next > 65535 {
            proof {
                let post = s@.subrange(first as int, i + 1);
                if all_digits(digits) {
                    assert(digits.take(i + 1 - first) == post);
                    lemma_digits_value_grows(digits, i + 1 - first);
                }
            }
            return None;
        }
        value = next;
        i = i + 1;
    }
    assert(s@.subrange(first as int, i as int) == digits);
    Some(value as u16)
}

proof fn lemma_digit_char(d: nat)
    requires
        d < 10,
    ensures
        is_digit(digit_char(d)),
        digit_value(digit_char(d)) == d,
{
    assert((('0' as u32) + d) as char as u32 == 48 + d);
}

/// The decimal notation of `n` is a non-empty run of digits whose value is `n`.
pub proof fn lemma_decimal_digits(n: nat)
    ensures
        decimal(n).len() > 0,
        all_digits(decimal(n)),
        digits_value(decimal(n)) == n,
    decreases n,
{
    if n < 10 {
        lemma_digit_char(n);
        assert(decimal(n).drop_last() =~= Seq::<char>::empty());
        assert(digits_value(Seq::<char>::empty()) == 0);
        assert(digits_value(decimal(n)) == n);
    } else {
        lemma_decimal_digits(n / 10);
        lemma_digit_char(n % 10);
        assert(decimal(n).drop_last() == decimal(n / 10));
        assert(decimal(n).last() == digit_char(n % 10));
        assert((n / 10) * 10 + n % 10 == n);
        assert(digits_value(decimal(n)) == digits_value(decimal(n / 10)) * 10 + digit_value(digit_char(n % 10)));
    }
}

/// Reading back the decimal notation of a 16-bit number gives the number.
pub proof fn lemma_parse_decimal(n: u16)
    ensures
        parse_u16(decimal(n as nat)) == Some(n),
{
    lemma_decimal_digits(n as nat);
    let d = decimal(n as nat);
    assert(is_digit(d[0]));
}

fn digit_char_exec(d: u16) -> (c: char)
    requires
        d < 10,
    ensures
        c == digit_char(d as nat),
{
    let b: u8 = 48 + (d as u8);
    b as char
}

/// Appends the decimal notation of `n` to `out`.
pub fn push_decimal(out: &mut String, n: u16)
    ensures
        final(out)@ == old(out)@ + decimal(n as nat),
    decreases n,
{
    if n >= 10 {
        push_decimal(out, n / 10);
    }
    push_char(out, digit_char_exec(n % 10));
    proof {
        if n < 10 {
            assert(decimal(n as nat) == seq![digit_char(n as nat)]);
        }
    }
}

/// A `+` before the decimal notation of a 16-bit number is accepted.
pub proof fn lemma_parse_plus_decimal(n: u16)
    ensures
        parse_u16(seq!['+'] + decimal(n as nat)) == Some(n),
{
    lemma_decimal_digits(n as nat);
    assert((seq!['+'] + decimal(n as nat)).drop_first() =~= decimal(n as nat));
}

/// Numbers above 65535, the empty string, a lone `+`, and any text holding
/// a character that is not a digit (past an optional leading `+`) are
/// rejected.
pub proof fn lemma_parse_u16_rejects(s: Seq<char>)
    ensures
        all_digits(s) && digits_value(s) > u16::MAX ==> parse_u16(s) is None,
        s.len() == 0 ==> parse_u16(s) is None,
        s == seq!['+'] ==> parse_u16(s) is None,
        (exists|k: int| 0 < k < s.len() && !is_digit(#[trigger] s[k])) ==> parse_u16(s) is None,
        s.len() > 0 && s[0] != '+' && !is_digit(s[0]) ==> parse_u16(s) is None,
{
    if exists|k: int| 0 < k < s.len() && !is_digit(#[trigger] s[k]) {
        let k = choose|k: int| 0 < k < s.len() && !is_digit(#[trigger] s[k]);
        if s.len() > 0 && s[0] == '+' {
            assert(s.drop_first()[k - 1] == s[k]);
        }
    }
}

} // verus!
