//! Appending characters and numbers to a growing text.

use crate::digits::{
    decimal, decimal_padded, decimal_signed, digit_char, digits_of, le_canonical, le_chars,
    le_digits, le_value, lemma_decimal_padded_digits, lemma_le_chars_decimal, lemma_ten_to_positive, ten_power, ten_to,
};
use vstd::arithmetic::div_mod::*;
use vstd::prelude::*;

verus! {

/// `String::push` of the standard library: the text afterwards is the text
/// before with the one character added at its end.
pub assume_specification[ String::push ](s: &mut String, ch: char)
    ensures
        final(s)@ == old(s)@.push(ch),
;

/// The character of one decimal digit.
pub(crate) fn digit_to_char(d: u8) -> (c: char)
    requires
        d < 10,
    ensures
        c == digit_char(d as nat),
{
    (48u8 + d) as char
}

/// Appends the characters of a digit list, most significant first.
pub(crate) fn push_digit_list(out: &mut String, ds: &Vec<u8>)
    requires
        le_canonical(ds@),
    ensures
        final(out)@ == old(out)@ + decimal(le_value(ds@)),
{
    let n: usize = ds.len();
    let mut i: usize = 0;
    proof {
        lemma_le_chars_decimal(ds@);
        assert(le_chars(ds@).subrange(0, 0) =~= Seq::<char>::empty());
        assert(old(out)@ + Seq::<char>::empty() =~= old(out)@);
    }
    while i < n
        invariant
            i <= n,
            n == ds@.len(),
            le_digits(ds@),
            out@ == old(out)@ + le_chars(ds@).subrange(0, i as int),
        decreases n - i,
    {
        let d: u8 = ds[n - 1 - i];
        let c: char = digit_to_char(d);
        proof {
            assert(le_chars(ds@).subrange(0, i + 1) =~= le_chars(ds@).subrange(0, i as int).push(c));
            assert((old(out)@ + le_chars(ds@).subrange(0, i as int)).push(c) =~= old(out)@
                + le_chars(ds@).subrange(0, i + 1));
        }
        out.push(c);
        i = i + 1;
    }
    proof {
        assert(le_chars(ds@).subrange(0, n as int) =~= le_chars(ds@));
    }
}

/// Appends the decimal notation of `n`.
pub fn push_decimal(out: &mut String, n: u128)
    ensures
        final(out)@ == old(out)@ + decimal(n as nat),
{
    let ds: Vec<u8> = digits_of(n);
    push_digit_list(out, &ds);
}

/// Appends the decimal notation of a signed number.
pub fn push_signed(out: &mut String, i: i64)
    ensures
        final(out)@ == old(out)@ + decimal_signed(i as int),
{
    if i < 0 {
        let magnitude: u128 = (-(i as i128)) as u128;
        out.push('-');
        push_decimal(out, magnitude);
        proof {
            assert(old(out)@.push('-') + decimal(magnitude as nat) =~= old(out)@ + (seq!['-']
                + decimal(magnitude as nat)));
        }
    } else {
        push_decimal(out, i as u128);
    }
}

/// Appends the lowest `width` decimal digits of `n`, zeros included.
pub(crate) fn push_padded(out: &mut String, n: u128, width: u32)
    requires
        width <= 19,
    ensures
        final(out)@ == old(out)@ + decimal_padded(n as nat, width as nat),
{
    if width == 0 {
        proof {
            assert(old(out)@ + decimal_padded(n as nat, 0) =~= old(out)@);
        }
        return ;
    }
    let mut scale: u128 = ten_power(width - 1);
    let mut j: u32 = 0;
    proof {
        let top = n as nat / ten_to(width as nat);
        lemma_decimal_padded_digits(top, 0);
        assert(decimal_padded(top, 0) =~= Seq::<char>::empty());
        assert(out@ + decimal_padded(top, 0) =~= out@);
    }
    while j < width
        invariant
            j <= width <= 19,
            j < width ==> scale == ten_to((width - j - 1) as nat),
            out@ == old(out)@ + decimal_padded(n as nat / ten_to((width - j) as nat), j as nat),
        decreases width - j,
    {
        proof {
            lemma_ten_to_positive((width - j - 1) as nat);
        }
        let shifted: u128 = n / scale;
        let d: u8 = (shifted % 10) as u8;
        let c: char = digit_to_char(d);
        proof {
            let lower = ten_to((width - j - 1) as nat);
            lemma_ten_to_positive((width - j - 1) as nat);
            assert(ten_to((width - j) as nat) == 10 * lower);
            lemma_div_denominator(n as int, lower as int, 10);
            assert(shifted as nat / 10 == n as nat / ten_to((width - j) as nat));
            assert(decimal_padded(shifted as nat, (j + 1) as nat) == decimal_padded(
                shifted as nat / 10,
                j as nat,
            ).push(c));
            assert((old(out)@ + decimal_padded(shifted as nat / 10, j as nat)).push(c) =~= old(
                out,
            )@ + decimal_padded(shifted as nat, (j + 1) as nat));
            if j + 1 < width {
                lemma_ten_to_positive((width - j - 2) as nat);
                assert(lower == 10 * ten_to((width - j - 2) as nat));
            }
        }
        out.push(c);
        scale = scale / 10;
        j = j + 1;
    }
    proof {
        assert(ten_to(0) == 1);
        assert(n as nat / 1 == n as nat);
    }
}

} // verus!
