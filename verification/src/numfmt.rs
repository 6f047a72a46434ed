//! Integer powers and the digit sequences that the OLED shows for numbers.

use vstd::prelude::*;

verus! {

use vstd::arithmetic::power::pow as ipow;

/// `x` raised to the power `y`, computed by repeated multiplication.
pub fn pow(x: u32, y: u32) -> (result: u32)
    requires
        ipow(x as int, y as nat) <= u32::MAX,
    ensures
        result as int == ipow(x as int, y as nat),
{
    let mut result: u32 = 1;
    let mut y_mut: u32 = y;
    while y_mut > 0
        invariant
            y_mut <= y,
            ipow(x as int, y as nat) <= u32::MAX,
            result as int * ipow(x as int, y_mut as nat) == ipow(x as int, y as nat),
        decreases y_mut,
    {
        proof {
            let e = (y_mut - 1) as nat;
            vstd::arithmetic::power::lemma_pow_adds(x as int, 1, e);
            vstd::arithmetic::power::lemma_pow1(x as int);
            let rest = ipow(x as int, e);
            assert(ipow(x as int, y_mut as nat) == x as int * rest);
            if x > 0 {
                vstd::arithmetic::power::lemma_pow_positive(x as int, e);
            }
            assert(result as int * x as int <= ipow(x as int, y as nat)
                && (result as int * x as int) * rest == ipow(x as int, y as nat)) by (nonlinear_arith)
                requires
                    result as int * (x as int * rest) == ipow(x as int, y as nat),
                    x > 0 ==> rest >= 1,
                    result >= 0,
                    x >= 0,
            ;
        }
        result = result * x;
        y_mut = y_mut - 1;
    }
    proof {
        vstd::arithmetic::power::lemma_pow0(x as int);
    }
    result
}


/// The `i`-th of `length` digits of `number` in base `base`, most
/// significant first: `(number / base^(length - 1 - i)) % base`.
pub open spec fn digit_at(number: nat, base: nat, length: nat, i: int) -> int {
    (number as int / ipow(base as int, (length - 1 - i) as nat)) % (base as int)
}

/// The character shown for one digit: `0`-`9`, then `A`-`F`.
pub open spec fn digit_char(d: int) -> char {
    if d < 10 {
        (48 + d) as char
    } else {
        (65 + d - 10) as char
    }
}

/// The value of a digit character; the inverse of `digit_char`.
pub open spec fn char_digit(c: char) -> int {
    if (c as int) < 65 {
        c as int - 48
    } else {
        c as int - 65 + 10
    }
}

/// The last `length` digits of `number` in base `base`, as the display
/// shows them (leading zeros included).
pub open spec fn number_chars(number: nat, base: nat, length: nat) -> Seq<char> {
    Seq::new(length, |i: int| digit_char(digit_at(number, base, length, i)))
}

/// The number that a sequence of digit characters denotes in base `base`.
pub open spec fn chars_value(cs: Seq<char>, base: int) -> int
    decreases cs.len(),
{
    if cs.len() == 0 {
        0
    } else {
        chars_value(cs.drop_last(), base) * base + char_digit(cs.last())
    }
}

/// The characters that the signed display shows: the sign, then the last
/// `length` decimal digits of the magnitude.
pub open spec fn signed_chars(number: int, length: nat) -> Seq<char> {
    seq![if number >= 0 { '+' } else { '-' }] + number_chars(
        (if number >= 0 { number } else { -number }) as nat,
        10,
        length,
    )
}

proof fn lemma_digit_char_inverse(d: int)
    requires
        0 <= d < 16,
    ensures
        char_digit(digit_char(d)) == d,
{
}

proof fn lemma_number_chars_shift(number: nat, base: nat, length: nat)
    requires
        base >= 2,
    ensures
        number_chars(number, base, length + 1).drop_last() == number_chars(
            number / base,
            base,
            length,
        ),
        number_chars(number, base, length + 1).last() == digit_char((number % base) as int),
{
    let a = number_chars(number, base, length + 1).drop_last();
    let b = number_chars(number / base, base, length);
    assert forall|i: int| 0 <= i < length implies a[i] == b[i] by {
        let e = (length - 1 - i) as nat;
        vstd::arithmetic::power::lemma_pow_positive(base as int, e);
        vstd::arithmetic::power::lemma_pow_adds(base as int, 1, e);
        vstd::arithmetic::power::lemma_pow1(base as int);
        assert((length + 1 - 1 - i) as nat == 1 + e);
        vstd::arithmetic::div_mod::lemma_div_denominator(
            number as int,
            base as int,
            ipow(base as int, e),
        );
    }
    assert(a =~= b);
    vstd::arithmetic::power::lemma_pow0(base as int);
}

/// Law: reading back the digits that the display shows for `number` gives
/// `number` modulo `base^length` (so `number` itself when it has at most
/// `length` digits).
pub proof fn lemma_number_chars_value(number: nat, base: nat, length: nat)
    requires
        2 <= base <= 16,
    ensures
        chars_value(number_chars(number, base, length), base as int) == number as int % ipow(
            base as int,
            length,
        ),
    decreases length,
{
    if length == 0 {
        vstd::arithmetic::power::lemma_pow0(base as int);
    } else {
        let m = (length - 1) as nat;
        lemma_number_chars_shift(number, base, m);
        lemma_number_chars_value(number / base, base, m);
        let d = (number % base) as int;
        lemma_digit_char_inverse(d);
        vstd::arithmetic::power::lemma_pow_positive(base as int, m);
        vstd::arithmetic::power::lemma_pow_adds(base as int, 1, m);
        vstd::arithmetic::power::lemma_pow1(base as int);
        vstd::arithmetic::div_mod::lemma_mod_breakdown(
            number as int,
            base as int,
            ipow(base as int, m),
        );
        assert(chars_value(number_chars(number, base, length), base as int) == ((number / base)
            as int % ipow(base as int, m)) * base + d);
        assert(((number / base) as int % ipow(base as int, m)) * base == base * ((number as int
            / base as int) % ipow(base as int, m))) by (nonlinear_arith);
    }
}

/// Law: digits 0-9 are shown as the characters `'0'`-`'9'` and digits 10-15
/// as the upper-case letters `'A'`-`'F'`.
pub proof fn lemma_digit_char_alphabet(d: int)
    requires
        0 <= d < 16,
    ensures
        d < 10 ==> digit_char(d) as int == '0' as int + d,
        10 <= d ==> digit_char(d) as int == 'A' as int + (d - 10),
        ('0' as int <= digit_char(d) as int <= '9' as int) || ('A' as int <= digit_char(d) as int
            <= 'F' as int),
{
}

/// Law: in a base from 2 to 16, every character shown for a number is one of
/// `'0'`-`'9'` or `'A'`-`'F'`; its digit value is below the base (so a base
/// of ten or less shows decimal digits only), a digit below ten is the
/// character `'0'` plus the digit, and a digit of ten or more is the letter
/// `'A'` plus the digit less ten.
pub proof fn lemma_number_chars_alphabet(number: nat, base: nat, length: nat)
    requires
        2 <= base <= 16,
    ensures
        number_chars(number, base, length).len() == length,
        forall|i: int|
            0 <= i < length ==> {
                let c = #[trigger] number_chars(number, base, length)[i] as int;
                let d = digit_at(number, base, length, i);
                &&& 0 <= d < base
                &&& ('0' as int <= c <= '9' as int) || ('A' as int <= c <= 'F' as int)
                &&& base <= 10 ==> '0' as int <= c < '0' as int + base
                &&& d < 10 ==> c == '0' as int + d
                &&& d >= 10 ==> c == 'A' as int + (d - 10)
            },
{
    assert forall|i: int| 0 <= i < length implies {
        let c = #[trigger] number_chars(number, base, length)[i] as int;
        let d = digit_at(number, base, length, i);
        &&& 0 <= d < base
        &&& ('0' as int <= c <= '9' as int) || ('A' as int <= c <= 'F' as int)
        &&& base <= 10 ==> '0' as int <= c < '0' as int + base
        &&& d < 10 ==> c == '0' as int + d
        &&& d >= 10 ==> c == 'A' as int + (d - 10)
    } by {
        let d = digit_at(number, base, length, i);
        vstd::arithmetic::power::lemma_pow_positive(base as int, (length - 1 - i) as nat);
        assert(0 <= d < base);
        lemma_digit_char_alphabet(d);
    }
}

/// Law: the signed display shows `+` exactly for numbers of zero and above
/// and `-` for every negative number, followed by the decimal digits of the
/// magnitude, which read back as the magnitude modulo `10^length`.
pub proof fn lemma_signed_chars_value(number: int, length: nat)
    ensures
        signed_chars(number, length).len() == length + 1,
        (signed_chars(number, length)[0] == '+') == (number >= 0),
        number < 0 ==> signed_chars(number, length)[0] == '-',
        forall|i: int|
            1 <= i <= length ==> '0' as int <= #[trigger] signed_chars(number, length)[i] as int
                <= '9' as int,
        chars_value(signed_chars(number, length).drop_first(), 10) == (if number >= 0 {
            number
        } else {
            -number
        }) % ipow(10, length),
{
    let mag = (if number >= 0 { number } else { -number }) as nat;
    assert(signed_chars(number, length).drop_first() =~= number_chars(mag, 10, length));
    lemma_number_chars_value(mag, 10, length);
    lemma_number_chars_alphabet(mag, 10, length);
    assert forall|i: int| 1 <= i <= length implies '0' as int <= #[trigger] signed_chars(
        number,
        length,
    )[i] as int <= '9' as int by {
        assert(signed_chars(number, length)[i] == number_chars(mag, 10, length)[i - 1]);
    }
}

} // verus!
