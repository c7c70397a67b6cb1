//! Numbers written out in a base from two to sixteen.

use vstd::arithmetic::div_mod::*;
use vstd::arithmetic::mul::*;
use vstd::arithmetic::power::*;
use vstd::prelude::*;

verus! {

/// The character that stands for a digit: `0` to `9`, then `a` to `f`.
pub open spec fn digit_char(d: nat) -> char {
    if d < 10 {
        ('0' as nat + d) as char
    } else {
        ('a' as nat + d - 10) as char
    }
}

/// `n` written in `base` without leading zeros.
pub open spec fn numeral(n: nat, base: nat) -> Seq<char>
    decreases n,
{
    if n < base || base < 2 {
        seq![digit_char(n)]
    } else {
        proof {
            lemma_div_decreases(n as int, base as int);
        }
        numeral(n / base, base).push(digit_char(n % base))
    }
}

/// The number whose digits in `base` are `digits`, the most significant first.
pub open spec fn place_value(digits: Seq<u16>, base: nat) -> nat
    decreases digits.len(),
{
    if digits.len() == 0 {
        0
    } else {
        place_value(digits.drop_last(), base) * base + digits.last() as nat
    }
}

/// The last `len` digits of `n` in `base`, the most significant first.
pub open spec fn place_digits(n: nat, base: nat, len: nat) -> Seq<u16>
    decreases len,
{
    if len == 0 {
        Seq::empty()
    } else {
        place_digits(n / base, base, (len - 1) as nat).push((n % base) as u16)
    }
}

/// Digits below the base make a number below the power of the base.
pub proof fn lemma_place_value_bound(digits: Seq<u16>, base: nat)
    requires
        base >= 2,
        forall|i: int| 0 <= i < digits.len() ==> (#[trigger] digits[i]) < base,
    ensures
        place_value(digits, base) < pow(base as int, digits.len()),
    decreases digits.len(),
{
    reveal(pow);
    if digits.len() > 0 {
        let rest = digits.drop_last();
        lemma_place_value_bound(rest, base);
        let v = place_value(rest, base) as int;
        let p = pow(base as int, rest.len());
        let d = digits.last() as int;
        assert(v * base + d < base * p) by (nonlinear_arith)
            requires
                v + 1 <= p,
                0 <= d < base,
        ;
    }
}

/// Writing a number out and reading it back gives the number.
pub proof fn lemma_value_of_digits(n: nat, base: nat, len: nat)
    requires
        2 <= base <= 0x1_0000,
        n < pow(base as int, len),
    ensures
        place_value(place_digits(n, base, len), base) == n,
    decreases len,
{
    reveal(pow);
    if len > 0 {
        let p = pow(base as int, (len - 1) as nat);
        lemma_fundamental_div_mod(n as int, base as int);
        lemma_mod_bound(n as int, base as int);
        assert(n / base < p) by (nonlinear_arith)
            requires
                n < base * p,
                base >= 2,
        ;
        lemma_value_of_digits(n / base, base, (len - 1) as nat);
        assert(place_digits(n, base, len).drop_last() =~= place_digits(
            n / base,
            base,
            (len - 1) as nat,
        ));
        lemma_mul_is_commutative(base as int, (n / base) as int);
    }
}

/// Reading digits and writing the number out gives the digits.
pub proof fn lemma_digits_of_value(digits: Seq<u16>, base: nat)
    requires
        2 <= base <= 0x1_0000,
        forall|i: int| 0 <= i < digits.len() ==> (#[trigger] digits[i]) < base,
    ensures
        place_digits(place_value(digits, base), base, digits.len()) == digits,
    decreases digits.len(),
{
    if digits.len() > 0 {
        let rest = digits.drop_last();
        lemma_digits_of_value(rest, base);
        lemma_fundamental_div_mod_converse(
            place_value(digits, base) as int,
            base as int,
            place_value(rest, base) as int,
            digits.last() as int,
        );
        assert(digits =~= rest.push(digits.last()));
    } else {
        assert(digits =~= Seq::empty());
    }
}

/// The length of written digits, and their range.
pub proof fn lemma_place_digits(n: nat, base: nat, len: nat)
    requires
        2 <= base <= 0x1_0000,
    ensures
        place_digits(n, base, len).len() == len,
        forall|i: int| 0 <= i < len ==> (#[trigger] place_digits(n, base, len)[i]) < base,
    decreases len,
{
    if len > 0 {
        lemma_mod_bound(n as int, base as int);
        lemma_place_digits(n / base, base, (len - 1) as nat);
    }
}

/// Appends the last `len` digits of `n` in `base` to `out`.
pub fn push_places(out: &mut Vec<u16>, n: u128, base: u32, len: usize)
    requires
        2 <= base <= 0x1_0000,
    ensures
        final(out)@ == old(out)@ + place_digits(n as nat, base as nat, len as nat),
    decreases len,
{
    if len > 0 {
        proof {
            lemma_mod_bound(n as int, base as int);
        }
        push_places(out, n / (base as u128), base, len - 1);
        out.push((n % (base as u128)) as u16);
    }
    assert(out@ =~= old(out)@ + place_digits(n as nat, base as nat, len as nat));
}

/// The number whose digits in `base` are `digits`.
pub fn from_places(digits: &Vec<u16>, base: u32) -> (n: u128)
    requires
        2 <= base <= 0x1_0000,
        forall|i: int| 0 <= i < digits@.len() ==> (#[trigger] digits@[i]) < base,
        pow(base as int, digits@.len()) <= u128::MAX + 1,
    ensures
        n == place_value(digits@, base as nat),
{
    let mut n: u128 = 0;
    let mut i: usize = 0;
    while i < digits.len()
        invariant
            i <= digits@.len(),
            2 <= base <= 0x1_0000,
            forall|k: int| 0 <= k < digits@.len() ==> (#[trigger] digits@[k]) < base,
            pow(base as int, digits@.len()) <= u128::MAX + 1,
            n == place_value(digits@.take(i as int), base as nat),
        decreases digits@.len() - i,
    {
        proof {
            let next = digits@.take(i + 1);
            assert(next.drop_last() =~= digits@.take(i as int));
            lemma_place_value_bound(next, base as nat);
            lemma_pow_increases(base as nat, (i + 1) as nat, digits@.len());
            lemma_mul_nonnegative(n as int, base as int);
        }
        n = n * (base as u128) + (digits[i] as u128);
        i = i + 1;
    }
    assert(digits@.take(i as int) =~= digits@);
    n
}

/// The text of one digit.
fn digit_text(d: u64) -> (r: &'static str)
    requires
        d < 16,
    ensures
        r@ == seq![digit_char(d as nat)],
{
    proof {
        reveal_strlit("0");
        reveal_strlit("1");
        reveal_strlit("2");
        reveal_strlit("3");
        reveal_strlit("4");
        reveal_strlit("5");
        reveal_strlit("6");
        reveal_strlit("7");
        reveal_strlit("8");
        reveal_strlit("9");
        reveal_strlit("a");
        reveal_strlit("b");
        reveal_strlit("c");
        reveal_strlit("d");
        reveal_strlit("e");
        reveal_strlit("f");
    }
    match d {
        0 => "0",
        1 => "1",
        2 => "2",
        3 => "3",
        4 => "4",
        5 => "5",
        6 => "6",
        7 => "7",
        8 => "8",
        9 => "9",
        10 => "a",
        11 => "b",
        12 => "c",
        13 => "d",
        14 => "e",
        _ => "f",
    }
}

/// Appends `n`, written in `base`, to `out`.
pub fn push_numeral(out: &mut String, n: u64, base: u64)
    requires
        2 <= base <= 16,
    ensures
        final(out)@ == old(out)@ + numeral(n as nat, base as nat),
    decreases n,
{
    if n >= base {
        proof {
            lemma_div_decreases(n as int, base as int);
            lemma_mod_bound(n as int, base as int);
        }
        push_numeral(out, n / base, base);
        out.append(digit_text(n % base));
        assert(out@ =~= old(out)@ + numeral(n as nat, base as nat));
    } else {
        out.append(digit_text(n));
        assert(out@ =~= old(out)@ + numeral(n as nat, base as nat));
    }
}

} // verus!
