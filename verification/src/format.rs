//! Decimal numbers in generated names and attribute values.

use vstd::prelude::*;

verus! {

/// Calls `String::push`, which appends one character.
#[verifier::external_body]
pub(crate) fn push_char(text: &mut String, c: char)
    ensures
        final(text)@ == old(text)@.push(c),
{
    text.push(c)
}

pub open spec fn digit_char(digit: nat) -> char {
    ((48 + digit) as u8) as char
}

/// The decimal digits of a number, without leading zeros.
pub open spec fn decimal(n: nat) -> Seq<char>
    decreases n,
{
    if n < 10 {
        seq![digit_char(n)]
    } else {
        decimal(n / 10).push(digit_char(n % 10))
    }
}

/// A number in decimal padded with leading zeros to at least `width` digits,
/// as `format!("{n:0width$}")` writes it.
pub open spec fn padded_decimal(n: nat, width: nat) -> Seq<char> {
    if decimal(n).len() >= width {
        decimal(n)
    } else {
        Seq::new((width - decimal(n).len()) as nat, |i: int| '0') + decimal(n)
    }
}

/// The number that a sequence of decimal digits denotes.
pub open spec fn digits_value(digits: Seq<char>) -> int
    decreases digits.len(),
{
    if digits.len() == 0 {
        0
    } else {
        digits_value(digits.drop_last()) * 10 + (digits.last() as int - 48)
    }
}

proof fn lemma_decimal_value(n: nat)
    ensures
        digits_value(decimal(n)) == n,
    decreases n,
{
    let d = n % 10;
    assert(((48 + d) as u8) as int == 48 + d);
    assert(digit_char(d) as int == 48 + d);
    let digits = decimal(n);
    if n >= 10 {
        lemma_decimal_value(n / 10);
        assert(digits.drop_last() == decimal(n / 10));
        assert(digits.last() == digit_char(d));
        assert(n == (n / 10) * 10 + d);
        assert(digits_value(digits) == digits_value(decimal(n / 10)) * 10 + (digit_char(d) as int
            - 48));
    } else {
        assert(digits.drop_last() =~= Seq::<char>::empty());
        assert(digits.last() == digit_char(d));
        assert(digits_value(digits) == digits_value(Seq::<char>::empty()) * 10 + (digit_char(d) as int
            - 48));
    }
}

proof fn lemma_leading_zeros_value(zeros: nat, digits: Seq<char>)
    ensures
        digits_value(Seq::new(zeros, |i: int| '0') + digits) == digits_value(digits),
    decreases digits.len(),
{
    let padded = Seq::new(zeros, |i: int| '0') + digits;
    if digits.len() == 0 {
        assert(padded =~= Seq::new(zeros, |i: int| '0'));
        lemma_zeros_value(zeros);
    } else {
        lemma_leading_zeros_value(zeros, digits.drop_last());
        assert(padded.drop_last() =~= Seq::new(zeros, |i: int| '0') + digits.drop_last());
    }
}

proof fn lemma_zeros_value(zeros: nat)
    ensures
        digits_value(Seq::new(zeros, |i: int| '0')) == 0,
    decreases zeros,
{
    if zeros > 0 {
        lemma_zeros_value((zeros - 1) as nat);
        assert(Seq::new(zeros, |i: int| '0').drop_last() =~= Seq::new(
            (zeros - 1) as nat,
            |i: int| '0',
        ));
    }
}

/// A padded decimal denotes the number it was made from, so two numbers
/// written with the same width are written alike only when they are equal.
pub proof fn lemma_padded_decimal_value(n: nat, width: nat)
    ensures
        digits_value(padded_decimal(n, width)) == n,
        forall|m: nat| #[trigger] padded_decimal(m, width) == padded_decimal(n, width) ==> m == n,
{
    lemma_decimal_value(n);
    if decimal(n).len() < width {
        lemma_leading_zeros_value((width - decimal(n).len()) as nat, decimal(n));
    }
    assert forall|m: nat| #[trigger] padded_decimal(m, width) == padded_decimal(n, width) implies m
        == n by {
        lemma_decimal_value(m);
        if decimal(m).len() < width {
            lemma_leading_zeros_value((width - decimal(m).len()) as nat, decimal(m));
        }
    }
}

/// A padded decimal is made of the ASCII digits alone.
pub proof fn lemma_padded_decimal_digits(n: nat, width: nat)
    ensures
        forall|k: int|
            0 <= k < padded_decimal(n, width).len() ==> '0' <= #[trigger] padded_decimal(
                n,
                width,
            )[k] <= '9',
{
    lemma_decimal_digits(n);
}

proof fn lemma_decimal_digits(n: nat)
    ensures
        forall|k: int| 0 <= k < decimal(n).len() ==> '0' <= #[trigger] decimal(n)[k] <= '9',
    decreases n,
{
    let d = n % 10;
    assert(((48 + d) as u8) as int == 48 + d);
    assert(digit_char(d) as int == 48 + d);
    if n >= 10 {
        lemma_decimal_digits(n / 10);
        assert forall|k: int| 0 <= k < decimal(n).len() implies '0' <= #[trigger] decimal(n)[k]
            <= '9' by {
            if k < decimal(n / 10).len() {
                assert(decimal(n)[k] == decimal(n / 10)[k]);
            }
        }
    }
}

fn digit(value: usize) -> (c: char)
    requires
        value < 10,
    ensures
        c == digit_char(value as nat),
{
    ((48 + value) as u8) as char
}

fn decimal_length(n: usize) -> (length: usize)
    ensures
        length == decimal(n as nat).len(),
        length <= 20,
    decreases n,
{
    if n < 10 {
        1
    } else {
        proof {
            lemma_decimal_length_bound(n as nat);
        }
        decimal_length(n / 10) + 1
    }
}

proof fn lemma_decimal_length_bound(n: nat)
    requires
        n <= usize::MAX,
    ensures
        decimal(n).len() <= 20,
    decreases n,
{
    if n >= 10 {
        lemma_decimal_length_bound(n / 10);
        if decimal(n / 10).len() == 20 {
            lemma_decimal_length_lower(n / 10);
            reveal_with_fuel(pow10, 20);
            assert(false) by (nonlinear_arith)
                requires
                    n / 10 >= pow10(19),
                    n <= 0xffff_ffff_ffff_ffff,
                    pow10(19) == 10_000_000_000_000_000_000,
            {
            }
        }
    }
}

pub open spec fn pow10(n: nat) -> nat
    decreases n,
{
    if n == 0 {
        1
    } else {
        10 * pow10((n - 1) as nat)
    }
}

proof fn lemma_decimal_length_lower(n: nat)
    ensures
        decimal(n).len() >= 1,
        decimal(n).len() > 1 ==> n >= pow10((decimal(n).len() - 1) as nat),
    decreases n,
{
    reveal_with_fuel(pow10, 20);
    if n >= 10 {
        lemma_decimal_length_lower(n / 10);
        let k = (decimal(n / 10).len() - 1) as nat;
        assert(decimal(n).len() == decimal(n / 10).len() + 1);
        assert(pow10(k + 1) == 10 * pow10(k));
        if k > 0 {
            assert(n >= 10 * pow10(k)) by (nonlinear_arith)
                requires
                    n / 10 >= pow10(k),
                    n >= 10,
            {
            }
        }
    }
}

/// Appends the decimal digits of `n`.
pub fn push_decimal(text: &mut String, n: usize)
    ensures
        final(text)@ == old(text)@ + decimal(n as nat),
    decreases n,
{
    if n >= 10 {
        push_decimal(text, n / 10);
    }
    push_char(text, digit(n % 10));
    proof {
        if n >= 10 {
            assert(decimal(n as nat) == decimal((n / 10) as nat).push(digit_char((n % 10) as nat)));
        }
    }
    assert(final(text)@ =~= old(text)@ + decimal(n as nat));
}

/// Appends `n` in decimal, padded with zeros to at least `width` digits.
pub fn push_padded_decimal(text: &mut String, n: usize, width: usize)
    ensures
        final(text)@ == old(text)@ + padded_decimal(n as nat, width as nat),
{
    let length = decimal_length(n);
    let ghost start = text@;
    let mut padding: usize = 0;
    let zeros: usize = if length < width {
        width - length
    } else {
        0
    };
    while padding < zeros
        invariant
            padding <= zeros,
            text@ == start + Seq::new(padding as nat, |i: int| '0'),
        decreases zeros - padding,
    {
        push_char(text, '0');
        padding = padding + 1;
        assert(text@ =~= start + Seq::new(padding as nat, |i: int| '0'));
    }
    push_decimal(text, n);
    assert(text@ =~= start + padded_decimal(n as nat, width as nat));
}

} // verus!
