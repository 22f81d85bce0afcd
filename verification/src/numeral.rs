//! Decimal numerals: writing and reading numbers as text.

use vstd::prelude::*;
use vstd::string::{StrSliceExecFns, StringExecFns};

verus! {

/// The character of the decimal digit `d`.
pub open spec fn digit_char(d: nat) -> char
    recommends
        d < 10,
{
    ((48 + d) as u8) as char
}

/// Whether `c` is a decimal digit.
pub open spec fn is_digit(c: char) -> bool {
    48 <= c as int <= 57
}

/// The decimal numeral of `n`, without leading zeros.
pub open spec fn decimal(n: nat) -> Seq<char>
    decreases n,
{
    if n < 10 {
        seq![digit_char(n)]
    } else {
        decimal(n / 10).push(digit_char(n % 10))
    }
}

/// The number that a string of digits denotes.
pub open spec fn digits_value(s: Seq<char>) -> nat
    decreases s.len(),
{
    if s.len() == 0 {
        0
    } else {
        (digits_value(s.drop_last()) * 10 + (s.last() as int - 48)) as nat
    }
}

/// Whether `s` is a decimal numeral: digits only, at least one, and no leading
/// zero unless it is the single digit `0`.
pub open spec fn is_numeral(s: Seq<char>) -> bool {
    &&& s.len() > 0
    &&& forall|i: int| 0 <= i < s.len() ==> is_digit(#[trigger] s[i])
    &&& s.len() > 1 ==> s[0] != '0'
}

/// Every number's numeral is a numeral and denotes that number.
pub proof fn lemma_decimal_is_numeral(n: nat)
    ensures
        is_numeral(decimal(n)),
        digits_value(decimal(n)) == n,
    decreases n,
{
    if n < 10 {
        let s = decimal(n);
        assert(s.drop_last() =~= Seq::<char>::empty());
        assert(s.last() as int == 48 + n);
        reveal_with_fuel(digits_value, 2);
    } else {
        lemma_decimal_is_numeral(n / 10);
        let p = decimal(n / 10);
        let s = decimal(n);
        assert(s.drop_last() =~= p);
        assert(s.last() as int == 48 + n % 10);
        assert(s[0] == p[0]);
        if p.len() == 1 {
            assert(digits_value(p) == n / 10);
            assert(p.drop_last() =~= Seq::<char>::empty());
            reveal_with_fuel(digits_value, 2);
            assert(p[0] as int - 48 == n / 10);
        }
    }
}

/// Every numeral is the numeral of the number it denotes.
pub proof fn lemma_numeral_is_decimal(s: Seq<char>)
    requires
        is_numeral(s),
    ensures
        decimal(digits_value(s)) == s,
    decreases s.len(),
{
    let d = (s.last() as int - 48) as nat;
    assert(is_digit(s[s.len() - 1]));
    assert(digit_char(d) == s.last());
    if s.len() == 1 {
        assert(s.drop_last() =~= Seq::<char>::empty());
        reveal_with_fuel(digits_value, 2);
        assert(digits_value(s) == d);
        assert(decimal(d) =~= s);
    } else {
        let p = s.drop_last();
        assert(is_numeral(p)) by {
            assert forall|i: int| 0 <= i < p.len() implies is_digit(#[trigger] p[i]) by {
                assert(p[i] == s[i]);
            }
            assert(p[0] == s[0]);
        }
        lemma_numeral_is_decimal(p);
        lemma_leading_digit(p);
        let v = digits_value(p);
        assert(digits_value(s) == v * 10 + d);
        assert(v >= 1);
        assert((v * 10 + d) / 10 == v);
        assert((v * 10 + d) % 10 == d);
        assert(decimal(digits_value(s)) =~= s);
    }
}

/// A numeral of several digits, or one other than `0`, denotes a positive number.
pub proof fn lemma_leading_digit(s: Seq<char>)
    requires
        is_numeral(s),
    ensures
        s != seq!['0'] ==> digits_value(s) >= 1,
    decreases s.len(),
{
    assert(is_digit(s[s.len() - 1]));
    if s.len() == 1 {
        assert(s.drop_last() =~= Seq::<char>::empty());
        reveal_with_fuel(digits_value, 2);
        if s[0] == '0' {
            assert(s =~= seq!['0']);
        }
    } else {
        let p = s.drop_last();
        assert(is_numeral(p)) by {
            assert forall|i: int| 0 <= i < p.len() implies is_digit(#[trigger] p[i]) by {
                assert(p[i] == s[i]);
            }
            assert(p[0] == s[0]);
        }
        lemma_leading_digit(p);
        if p =~= seq!['0'] {
            assert(s[0] == p[0]);
        }
    }
}

/// A character's code is the same number in every integer type that holds it.
pub proof fn lemma_char_code(c: char)
    ensures
        c as u32 == c as int,
{
}

/// Extending a string of digits never lowers the number it denotes.
pub proof fn lemma_prefix_value(s: Seq<char>, k: int)
    requires
        0 <= k <= s.len(),
        forall|i: int| 0 <= i < s.len() ==> is_digit(#[trigger] s[i]),
    ensures
        digits_value(s.take(k)) <= digits_value(s),
    decreases s.len(),
{
    if k == s.len() {
        assert(s.take(k) =~= s);
    } else {
        let p = s.drop_last();
        assert(p.take(k) =~= s.take(k));
        assert(is_digit(s[s.len() - 1]));
        lemma_prefix_value(p, k);
    }
}

/// The decimal digit `d` as a text of one character.
pub fn digit_text(d: u8) -> (text: &'static str)
    requires
        d < 10,
    ensures
        text@ == seq![digit_char(d as nat)],
{
    let digits = "0123456789";
    proof {
        reveal_strlit("0123456789");
        assert(forall|i: int| 0 <= i < 10 ==> (#[trigger] digits@[i]) as int == 48 + i);
    }
    let text = digits.substring_char(d as usize, d as usize + 1);
    assert(text@ =~= seq![digit_char(d as nat)]);
    text
}

/// Appends the decimal numeral of `n` to `text`.
pub fn push_decimal(text: &mut String, n: u128)
    ensures
        final(text)@ == old(text)@ + decimal(n as nat),
    decreases n,
{
    if n >= 10 {
        push_decimal(text, n / 10);
    }
    text.append(digit_text((n % 10) as u8));
    assert(text@ =~= old(text)@ + decimal(n as nat));
}

/// The decimal numeral of `n`.
pub fn decimal_text(n: u128) -> (text: String)
    ensures
        text@ == decimal(n as nat),
{
    let mut text = String::new();
    push_decimal(&mut text, n);
    assert(text@ =~= decimal(n as nat));
    text
}

/// An amount of hundredths written in whole units with two decimals:
/// 1250 is `12.50`.
pub open spec fn amount(hundredths: nat) -> Seq<char> {
    decimal(hundredths / 100) + seq!['.'] + seq![
        digit_char(hundredths % 100 / 10),
        digit_char(hundredths % 10),
    ]
}

/// Writes an amount of hundredths in whole units with two decimals.
pub fn amount_text(hundredths: u128) -> (text: String)
    ensures
        text@ == amount(hundredths as nat),
{
    let mut text = decimal_text(hundredths / 100);
    text.append(".");
    text.append(digit_text((hundredths % 100 / 10) as u8));
    text.append(digit_text((hundredths % 10) as u8));
    proof {
        reveal_strlit(".");
        assert("."@ =~= seq!['.']);
        assert(text@ =~= amount(hundredths as nat));
    }
    text
}

} // verus!
