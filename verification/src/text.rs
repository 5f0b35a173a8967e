//! Numbers as text.
use std::str::FromStr;
use vstd::prelude::*;

verus! {

pub open spec fn is_digit(c: char) -> bool {
    '0' <= c <= '9'
}

pub open spec fn digit_value(c: char) -> nat {
    (c as int - '0' as int) as nat
}

/// The character of a number below ten.
pub open spec fn digit_char(d: nat) -> char {
    ('0' as int + d) as char
}

/// `n` in decimal, without leading zeros.
pub open spec fn decimal(n: nat) -> Seq<char>
    decreases n,
{
    if n < 10 {
        seq![digit_char(n)]
    } else {
        decimal(n / 10).push(digit_char(n % 10))
    }
}

pub open spec fn all_digits(s: Seq<char>) -> bool {
    forall|i: int| 0 <= i < s.len() ==> is_digit(#[trigger] s[i])
}

/// The number that a sequence of digits stands for.
pub open spec fn digits_value(s: Seq<char>) -> nat
    decreases s.len(),
{
    if s.len() == 0 {
        0
    } else {
        10 * digits_value(s.drop_last()) + digit_value(s.last())
    }
}

/// What is left of a number's text without a plus sign in front of it.
pub open spec fn without_plus(s: Seq<char>) -> Seq<char> {
    if s.len() > 0 && s[0] == '+' {
        s.skip(1)
    } else {
        s
    }
}

/// The amount that a text stands for: digits, with or without a plus sign in front, whose number
/// fits in 128 bits. Any other text stands for none.
pub open spec fn amount_value(s: Seq<char>) -> Option<u128> {
    let d = without_plus(s);
    if d.len() > 0 && all_digits(d) && digits_value(d) <= u128::MAX {
        Some(digits_value(d) as u128)
    } else {
        None
    }
}

/// Calls `Uint128::from_str` of `cosmwasm_std`, which hands the text to the parser of `u128` of
/// the standard library. Claims that it takes what that parser documents: an optional plus sign
/// followed by digits only, at least one of them, for a number that fits; and that the result is
/// that number. The text of the error is left out.
#[verifier::external_body]
fn uint128_from_str(s: &str) -> (r: Option<u128>)
    ensures
        r == amount_value(s@),
{
    cosmwasm_std::Uint128::from_str(s).ok().map(|v| v.u128())
}

/// Calls `to_string` on a `Uint128` of `cosmwasm_std`, which prints the number as `u128` does.
/// Claims that the text is the number in decimal.
#[verifier::external_body]
fn uint128_to_string(v: u128) -> (r: String)
    ensures
        r@ == decimal(v as nat),
{
    cosmwasm_std::Uint128::new(v).to_string()
}

/// The amount that `s` stands for, if it stands for one.
pub fn parse_amount(s: &str) -> (r: Option<u128>)
    ensures
        r == amount_value(s@),
{
    uint128_from_str(s)
}

/// The text of an amount.
pub fn format_amount(v: u128) -> (r: String)
    ensures
        r@ == decimal(v as nat),
{
    uint128_to_string(v)
}

proof fn lemma_decimal_digits(n: nat)
    ensures
        decimal(n).len() > 0,
        all_digits(decimal(n)),
        digits_value(decimal(n)) == n,
    decreases n,
{
    reveal_with_fuel(digits_value, 2);
    if n < 10 {
        assert(decimal(n).drop_last() =~= Seq::empty());
        assert(decimal(n).last() == digit_char(n));
    } else {
        lemma_decimal_digits(n / 10);
        assert(decimal(n).drop_last() =~= decimal(n / 10));
        assert(decimal(n).last() == digit_char(n % 10));
    }
}

/// The text of an amount is read back as that amount.
pub proof fn law_amount_round_trip(v: u128)
    ensures
        amount_value(decimal(v as nat)) == Some(v),
{
    lemma_decimal_digits(v as nat);
    assert(is_digit(decimal(v as nat)[0]));
    assert(without_plus(decimal(v as nat)) == decimal(v as nat));
}

/// A number is written in digits from 0 to 9, highest first and none of them in vain: one digit more
/// is ten times the number and that digit, and no number but 0 begins with a 0.
pub proof fn law_decimal_digits(n: nat, d: nat)
    requires
        d < 10,
    ensures
        decimal(d) == seq![('0' as int + d) as char],
        n > 0 ==> decimal(10 * n + d) == decimal(n).push(('0' as int + d) as char),
        n > 0 ==> decimal(n)[0] != '0',
        forall|i: int| 0 <= i < decimal(n).len() ==> '0' <= #[trigger] decimal(n)[i] <= '9',
    decreases n,
{
    lemma_decimal_digits(n);
    assert forall|i: int| 0 <= i < decimal(n).len() implies '0' <= #[trigger] decimal(n)[i]
        <= '9' by {
        assert(is_digit(decimal(n)[i]));
    }
    if n >= 10 {
        lemma_decimal_digits(n / 10);
        law_decimal_digits(n / 10, d);
        assert(decimal(n)[0] == decimal(n / 10)[0]);
    }
    if n > 0 {
        assert((10 * n + d) / 10 == n);
        assert((10 * n + d) % 10 == d);
    }
}

/// Digits are read highest first, with or without a plus sign in front; text with anything else in
/// it, and text without a digit, stands for no amount.
pub proof fn law_amounts_are_read(s: Seq<char>, c: char, i: int)
    ensures
        digits_value(Seq::empty()) == 0,
        '0' <= c <= '9' ==> digits_value(s.push(c)) == 10 * digits_value(s) + (c as int - '0' as int),
        amount_value(Seq::empty()) is None,
        amount_value(s) matches Some(v) ==> v == digits_value(without_plus(s)),
        s.len() > 0 && s[0] != '+' ==> amount_value(seq!['+'] + s) == amount_value(s),
        0 < i < s.len() && !('0' <= s[i] <= '9') ==> amount_value(s) is None,
        s.len() > 0 && s[0] != '+' && !('0' <= s[0] <= '9') ==> amount_value(s) is None,
        s.len() > 0 && (forall|j: int| 0 <= j < s.len() ==> '0' <= #[trigger] s[j] <= '9')
            && digits_value(s) <= u128::MAX ==> amount_value(s) == Some(digits_value(s) as u128),
{
    assert(s.push(c).drop_last() =~= s);
    assert((seq!['+'] + s).skip(1) =~= s);
    let d = without_plus(s);
    if 0 < i < s.len() && !('0' <= s[i] <= '9') {
        if s[0] == '+' {
            assert(!is_digit(d[i - 1]));
        } else {
            assert(!is_digit(d[i]));
        }
    }
    if s.len() > 0 && s[0] != '+' && !('0' <= s[0] <= '9') {
        assert(!is_digit(d[0]));
    }
    if s.len() > 0 && (forall|j: int| 0 <= j < s.len() ==> '0' <= #[trigger] s[j] <= '9') {
        assert('0' <= s[0] <= '9');
        assert(all_digits(s));
    }
}

} // verus!
