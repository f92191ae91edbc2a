//! Decimal text of unsigned integers, as numbers and addresses are written
//! on the wire.

use vstd::prelude::*;
use vstd::string::StringExecFns;

verus! {

/// The character of a decimal digit (`0 <= d < 10`).
pub open spec fn digit_char(d: nat) -> char {
    seq!['0', '1', '2', '3', '4', '5', '6', '7', '8', '9'][d as int]
}

/// Whether `c` is a decimal digit.
pub open spec fn is_digit(c: char) -> bool {
    '0' <= c && c <= '9'
}

/// The value of a decimal digit.
pub open spec fn digit_value(c: char) -> nat {
    (c as int - '0' as int) as nat
}

/// The decimal text of `n`, without leading zeros.
pub open spec fn spec_decimal(n: nat) -> Seq<char>
    decreases n,
{
    if n < 10 {
        seq![digit_char(n)]
    } else {
        spec_decimal(n / 10).push(digit_char(n % 10))
    }
}

/// The number that a string of decimal digits stands for.
pub open spec fn digits_value(s: Seq<char>) -> nat
    decreases s.len(),
{
    if s.len() == 0 {
        0
    } else {
        digits_value(s.drop_last()) * 10 + digit_value(s.last())
    }
}

/// Whether every character of `s` is a decimal digit.
pub open spec fn all_digits(s: Seq<char>) -> bool {
    forall|i: int| 0 <= i < s.len() ==> #[trigger] is_digit(s[i])
}

/// The largest `u128`.
pub open spec fn u128_max() -> nat {
    0xffff_ffff_ffff_ffff_ffff_ffff_ffff_ffff
}

/// The digits of `s` after an optional leading `+`.
pub open spec fn unsigned_digits(s: Seq<char>) -> Seq<char> {
    if s.len() > 0 && s[0] == '+' {
        s.drop_first()
    } else {
        s
    }
}

/// What parsing `s` as a `u128` gives: an optional `+`, then one or more
/// decimal digits whose value fits.
pub open spec fn spec_parse_u128(s: Seq<char>) -> Option<u128> {
    let d = unsigned_digits(s);
    if d.len() > 0 && all_digits(d) && digits_value(d) <= u128_max() {
        Some(digits_value(d) as u128)
    } else {
        None
    }
}

/// The one-character string of a digit.
fn digit_str(d: u8) -> (res: &'static str)
    requires
        d < 10,
    ensures
        res@ == seq![digit_char(d as nat)],
{
    proof {
        reveal_strlit("0");
        reveal_strlit("1");
        reveal_strlit("2");
        reveal_strlit("3");
        reveal_strlit("4");
        reveal_strlit("5");
        reveal_strlit("6");
        reveal_strlit("7");
        reveal_strlit("8");
        reveal_strlit("9");
    }
    match d {
        0 => "0",
        1 => "1",
        2 => "2",
        3 => "3",
        4 => "4",
        5 => "5",
        6 => "6",
        7 => "7",
        8 => "8",
        _ => "9",
    }
}

/// Appends the decimal text of `n` to `s`.
pub fn append_decimal(s: &mut String, n: u128)
    ensures
        final(s)@ == old(s)@ + spec_decimal(n as nat),
    decreases n,
{
    if n >= 10 {
        append_decimal(s, n / 10);
    }
    s.append(digit_str((n % 10) as u8));
    assert(final(s)@ =~= old(s)@ + spec_decimal(n as nat));
}

/// The decimal text of `n`.
pub fn decimal_string(n: u128) -> (res: String)
    ensures
        res@ == spec_decimal(n as nat),
{
    let mut s = String::new();
    append_decimal(&mut s, n);
    assert(s@ =~= spec_decimal(n as nat));
    s
}

proof fn lemma_digit_char(d: nat)
    requires
        d < 10,
    ensures
        is_digit(digit_char(d)),
        digit_value(digit_char(d)) == d,
{
}

/// The decimal text of a number is all digits and stands for that number.
pub proof fn lemma_decimal_value(n: nat)
    ensures
        spec_decimal(n).len() > 0,
        all_digits(spec_decimal(n)),
        digits_value(spec_decimal(n)) == n,
    decreases n,
{
    if n < 10 {
        lemma_digit_char(n);
        assert(seq![digit_char(n)].drop_last() =~= Seq::<char>::empty());
        assert(digits_value(Seq::<char>::empty()) == 0);
        assert(digits_value(seq![digit_char(n)]) == n);
    } else {
        lemma_decimal_value(n / 10);
        lemma_digit_char(n % 10);
        let s = spec_decimal(n);
        assert(s.drop_last() =~= spec_decimal(n / 10));
        assert(s.last() == digit_char(n % 10));
        assert(digits_value(s) == (n / 10) * 10 + n % 10);
        assert forall|i: int| 0 <= i < s.len() implies #[trigger] is_digit(s[i]) by {
            if i < s.len() - 1 {
                assert(s[i] == spec_decimal(n / 10)[i]);
            }
        }
    }
}

/// Parsing the decimal text of a `u128` gives it back.
pub proof fn lemma_decimal_roundtrip(n: u128)
    ensures
        spec_parse_u128(spec_decimal(n as nat)) == Some(n),
{
    lemma_decimal_value(n as nat);
    let s = spec_decimal(n as nat);
    lemma_digit_char((n % 10) as nat);
    assert(s[0] != '+') by {
        assert(is_digit(s[0]));
    }
    assert(unsigned_digits(s) == s);
}

/// Extending a run of digits by one digit.
proof fn lemma_digits_value_push(s: Seq<char>, c: char)
    ensures
        digits_value(s.push(c)) == digits_value(s) * 10 + digit_value(c),
{
    assert(s.push(c).drop_last() =~= s);
}

/// Digits after a prefix only make the value larger.
proof fn lemma_digits_value_prefix(s: Seq<char>, k: int)
    requires
        0 <= k <= s.len(),
    ensures
        digits_value(s.take(k)) <= digits_value(s),
    decreases s.len() - k,
{
    if k < s.len() {
        lemma_digits_value_prefix(s, k + 1);
        assert(s.take(k + 1).drop_last() =~= s.take(k));
    } else {
        assert(s.take(k) =~= s);
    }
}

/// Parses `s` as a `u128`: an optional `+`, then one or more decimal digits
/// whose value fits.
pub fn parse_u128(s: &str) -> (res: Option<u128>)
    ensures
        res == spec_parse_u128(s@),
{
    let ghost d = unsigned_digits(s@);
    let ghost mut count: int = 0;
    let mut value: u128 = 0;
    let mut first = true;
    let mut signed = false;
    let mut any_digit = false;
    for c in it: s.chars()
        invariant
            it.seq() == s@,
            d == unsigned_digits(s@),
            first == (it.index() == 0),
            signed == (s@.len() > 0 && s@[0] == '+' && it.index() > 0),
            count == it.index() - (if signed { 1int } else { 0int }),
            0 <= count <= d.len(),
            any_digit == (count > 0),
            all_digits(d.take(count)),
            value as nat == digits_value(d.take(count)),
    {
        if first && c == '+' {
            first = false;
            signed = true;
            assert(d.take(0) =~= Seq::<char>::empty());
        } else {
            first = false;
            assert(d[count] == c);
            if c < '0' || c > '9' {
                assert(!is_digit(d[count]));
                assert(!all_digits(d));
                return None;
            }
            let digit: u128 = (c as u32 - '0' as u32) as u128;
            assert(d.take(count + 1) =~= d.take(count).push(c));
            proof {
                lemma_digits_value_push(d.take(count), c);
            }
            if value > (0xffff_ffff_ffff_ffff_ffff_ffff_ffff_ffffu128 - digit) / 10 {
                proof {
                    lemma_digits_value_prefix(d, count + 1);
                }
                assert(!all_digits(d) || digits_value(d) > u128_max());
                return None;
            }
            value = value * 10 + digit;
            any_digit = true;
            proof {
                count = count + 1;
            }
        }
    }
    assert(d.take(count) =~= d);
    if !any_digit {
        return None;
    }
    Some(value)
}

} // verus!
