//! Decimal notation of natural numbers.

use vstd::prelude::*;

verus! {

/// Ten raised to the power `e`.
pub open spec fn ten_to(e: nat) -> nat
    decreases e,
{
    if e == 0 {
        1
    } else {
        10 * ten_to((e - 1) as nat)
    }
}

/// Two raised to the power `e`.
pub open spec fn two_to(e: nat) -> nat
    decreases e,
{
    if e == 0 {
        1
    } else {
        2 * two_to((e - 1) as nat)
    }
}

/// The character that writes the digit `d`.
pub open spec fn digit_char(d: nat) -> char {
    (48 + d) as char
}

/// Decimal notation of `n`: most significant digit first, no leading zero.
pub open spec fn decimal(n: nat) -> Seq<char>
    decreases n,
{
    if n < 10 {
        seq![digit_char(n)]
    } else {
        decimal(n / 10).push(digit_char(n % 10))
    }
}

/// The lowest `width` decimal digits of `n`, padded with zeros on the left.
pub open spec fn decimal_padded(n: nat, width: nat) -> Seq<char>
    decreases width,
{
    if width == 0 {
        Seq::empty()
    } else {
        decimal_padded(n / 10, (width - 1) as nat).push(digit_char(n % 10))
    }
}

/// Decimal notation of a signed integer: a minus sign before the magnitude of
/// a negative number.
pub open spec fn decimal_signed(i: int) -> Seq<char> {
    if i < 0 {
        seq!['-'] + decimal((-i) as nat)
    } else {
        decimal(i as nat)
    }
}

/// The number that a run of decimal digit characters writes.
pub open spec fn digits_value(s: Seq<char>) -> nat
    decreases s.len(),
{
    if s.len() == 0 {
        0
    } else {
        (digits_value(s.drop_last()) * 10 + (s.last() as nat - 48)) as nat
    }
}

/// Whether every character of `s` is a decimal digit.
pub open spec fn all_digits(s: Seq<char>) -> bool {
    forall|i: int| 0 <= i < s.len() ==> '0' <= #[trigger] s[i] <= '9'
}

/// The number held by a list of decimal digits, least significant first.
pub open spec fn le_value(ds: Seq<u8>) -> nat
    decreases ds.len(),
{
    if ds.len() == 0 {
        0
    } else {
        ds[0] as nat + 10 * le_value(ds.drop_first())
    }
}

/// Every entry is a decimal digit.
pub open spec fn le_digits(ds: Seq<u8>) -> bool {
    forall|i: int| 0 <= i < ds.len() ==> #[trigger] ds[i] < 10
}

/// A digit list in its one normal form: at least one digit, and no zero at
/// the most significant end unless the number is a single digit.
pub open spec fn le_canonical(ds: Seq<u8>) -> bool {
    &&& ds.len() >= 1
    &&& le_digits(ds)
    &&& ds.len() > 1 ==> ds.last() != 0
}

/// The characters of a digit list, most significant first.
pub open spec fn le_chars(ds: Seq<u8>) -> Seq<char> {
    Seq::new(ds.len(), |i: int| digit_char(ds[ds.len() - 1 - i] as nat))
}

pub proof fn lemma_ten_to_positive(e: nat)
    ensures
        ten_to(e) >= 1,
    decreases e,
{
    if e > 0 {
        lemma_ten_to_positive((e - 1) as nat);
    }
}

pub proof fn lemma_two_to_positive(e: nat)
    ensures
        two_to(e) >= 1,
    decreases e,
{
    if e > 0 {
        lemma_two_to_positive((e - 1) as nat);
    }
}

pub proof fn lemma_ten_to_monotonic(a: nat, b: nat)
    requires
        a <= b,
    ensures
        ten_to(a) <= ten_to(b),
    decreases b,
{
    if a < b {
        lemma_ten_to_monotonic(a, (b - 1) as nat);
    }
}

pub proof fn lemma_two_to_monotonic(a: nat, b: nat)
    requires
        a <= b,
    ensures
        two_to(a) <= two_to(b),
    decreases b,
{
    if a < b {
        lemma_two_to_monotonic(a, (b - 1) as nat);
    }
}

pub proof fn lemma_two_to_adds(a: nat, b: nat)
    ensures
        two_to(a + b) == two_to(a) * two_to(b),
    decreases b,
{
    if b == 0 {
        assert(two_to(a + b) == two_to(a) * 1);
    } else {
        lemma_two_to_adds(a, (b - 1) as nat);
        assert(two_to(a + b) == 2 * two_to((a + b - 1) as nat));
        assert(2 * (two_to(a) * two_to((b - 1) as nat)) == two_to(a) * (2 * two_to((b - 1) as nat)))
            by (nonlinear_arith);
    }
}

/// Appending a digit at the most significant end adds it at its place value.
pub proof fn lemma_le_value_push(ds: Seq<u8>, d: u8)
    ensures
        le_value(ds.push(d)) == le_value(ds) + d * ten_to(ds.len()),
    decreases ds.len(),
{
    let whole = ds.push(d);
    assert(le_value(whole) == whole[0] as nat + 10 * le_value(whole.drop_first()));
    if ds.len() == 0 {
        assert(whole.drop_first() =~= Seq::<u8>::empty());
        assert(le_value(whole.drop_first()) == 0);
        assert(ten_to(0) == 1);
        assert(d * ten_to(0) == d as nat) by (nonlinear_arith)
            requires
                ten_to(0) == 1,
        ;
    } else {
        let rest = ds.drop_first();
        lemma_le_value_push(rest, d);
        assert(whole.drop_first() =~= rest.push(d));
        assert(whole[0] == ds[0]);
        assert(ten_to(ds.len()) == 10 * ten_to(rest.len()));
        assert(10 * (d * ten_to(rest.len())) == d * (10 * ten_to(rest.len()))) by (nonlinear_arith);
    }
}

/// A digit list with a non-zero most significant digit holds a positive number.
pub proof fn lemma_le_value_positive(ds: Seq<u8>)
    requires
        ds.len() >= 1,
        ds.last() != 0,
    ensures
        le_value(ds) >= 1,
    decreases ds.len(),
{
    if ds.len() > 1 {
        let rest = ds.drop_first();
        assert(rest.last() == ds.last());
        lemma_le_value_positive(rest);
    }
}

/// The characters of a normal digit list are the decimal notation of its number.
pub proof fn lemma_le_chars_decimal(ds: Seq<u8>)
    requires
        le_canonical(ds),
    ensures
        le_chars(ds) == decimal(le_value(ds)),
    decreases ds.len(),
{
    let n = le_value(ds);
    let rest = ds.drop_first();
    if ds.len() == 1 {
        assert(rest.len() == 0);
        assert(le_value(rest) == 0);
        assert(n == ds[0]);
        assert(le_chars(ds) =~= seq![digit_char(n)]);
    } else {
        assert(rest.last() == ds.last());
        assert(le_canonical(rest)) by {
            assert forall|i: int| 0 <= i < rest.len() implies #[trigger] rest[i] < 10 by {
                assert(rest[i] == ds[i + 1]);
            }
        }
        lemma_le_value_positive(rest);
        lemma_le_chars_decimal(rest);
        let v = le_value(rest);
        assert(n == ds[0] + 10 * v);
        assert(ds[0] < 10);
        assert(n / 10 == v && n % 10 == ds[0] as nat);
        assert(n >= 10);
        assert(le_chars(ds) =~= le_chars(rest).push(digit_char(ds[0] as nat)));
    }
}

/// Decimal notation holds digit characters only, and at least one.
pub proof fn lemma_decimal_digits(n: nat)
    ensures
        decimal(n).len() >= 1,
        all_digits(decimal(n)),
    decreases n,
{
    if n >= 10 {
        lemma_decimal_digits(n / 10);
    }
}

/// Padded notation has exactly the asked width and holds digit characters only.
pub proof fn lemma_decimal_padded_digits(n: nat, width: nat)
    ensures
        decimal_padded(n, width).len() == width,
        all_digits(decimal_padded(n, width)),
    decreases width,
{
    if width > 0 {
        lemma_decimal_padded_digits(n / 10, (width - 1) as nat);
    }
}

/// Reading decimal notation gives the number back.
pub proof fn lemma_decimal_reads_back(n: nat)
    ensures
        digits_value(decimal(n)) == n,
    decreases n,
{
    if n < 10 {
        let s = decimal(n);
        assert(s.drop_last() =~= Seq::<char>::empty());
        assert(digits_value(s.drop_last()) == 0);
    } else {
        lemma_decimal_reads_back(n / 10);
        let s = decimal(n);
        assert(s.drop_last() =~= decimal(n / 10));
    }
}

/// Reading padded notation gives the number back, reduced to the digits kept.
pub proof fn lemma_decimal_padded_reads_back(n: nat, width: nat)
    ensures
        digits_value(decimal_padded(n, width)) == n % ten_to(width),
    decreases width,
{
    if width == 0 {
    } else {
        let w = (width - 1) as nat;
        lemma_decimal_padded_reads_back(n / 10, w);
        let s = decimal_padded(n, width);
        assert(s.drop_last() =~= decimal_padded(n / 10, w));
        lemma_ten_to_positive(w);
        let t = ten_to(w);
        assert(ten_to(width) == 10 * t);
        assert(((n / 10) % t) * 10 + n % 10 == n % (10 * t)) by (nonlinear_arith)
            requires
                t >= 1,
        ;
    }
}

/// Ten to the power `e`, as a machine number.
pub(crate) fn ten_power(e: u32) -> (r: u128)
    requires
        e <= 18,
    ensures
        r == ten_to(e as nat),
{
    let mut r: u128 = 1;
    let mut i: u32 = 0;
    proof {
        lemma_ten_to_bound();
    }
    while i < e
        invariant
            i <= e <= 18,
            r == ten_to(i as nat),
            ten_to(18) == 1_000_000_000_000_000_000,
        decreases e - i,
    {
        proof {
            lemma_ten_to_monotonic((i + 1) as nat, 18);
        }
        r = r * 10;
        i = i + 1;
    }
    r
}

/// Two to the power `e`, as a machine number.
pub(crate) fn two_power(e: u32) -> (r: u128)
    requires
        e <= 124,
    ensures
        r == two_to(e as nat),
{
    let mut r: u128 = 1;
    let mut i: u32 = 0;
    proof {
        lemma_two_to_bound();
    }
    while i < e
        invariant
            i <= e <= 124,
            r == two_to(i as nat),
            two_to(124) == 0x1000_0000_0000_0000_0000_0000_0000_0000,
        decreases e - i,
    {
        proof {
            lemma_two_to_monotonic((i + 1) as nat, 124);
        }
        r = r * 2;
        i = i + 1;
    }
    r
}

/// The value of the largest power of ten that the renderer multiplies by.
pub proof fn lemma_ten_to_bound()
    ensures
        ten_to(18) == 1_000_000_000_000_000_000,
{
    reveal_with_fuel(ten_to, 19);
}

/// The values of the powers of two that bound the renderer's arithmetic.
pub proof fn lemma_two_to_bound()
    ensures
        two_to(64) == 0x1_0000_0000_0000_0000,
        two_to(124) == 0x1000_0000_0000_0000_0000_0000_0000_0000,
{
    assert(two_to(12) == 0x1000) by {
        reveal_with_fuel(two_to, 13);
    }
    assert(two_to(16) == 0x1_0000) by {
        reveal_with_fuel(two_to, 17);
    }
    lemma_two_to_adds(16, 16);
    lemma_two_to_adds(32, 32);
    lemma_two_to_adds(64, 32);
    lemma_two_to_adds(96, 16);
    lemma_two_to_adds(112, 12);
    assert(two_to(32) == 0x1_0000_0000) by (nonlinear_arith)
        requires
            two_to(32) == two_to(16) * two_to(16),
            two_to(16) == 0x1_0000,
    ;
    assert(two_to(64) == 0x1_0000_0000_0000_0000) by (nonlinear_arith)
        requires
            two_to(64) == two_to(32) * two_to(32),
            two_to(32) == 0x1_0000_0000,
    ;
    assert(two_to(96) == 0x1_0000_0000_0000_0000_0000_0000) by (nonlinear_arith)
        requires
            two_to(96) == two_to(64) * two_to(32),
            two_to(64) == 0x1_0000_0000_0000_0000,
            two_to(32) == 0x1_0000_0000,
    ;
    assert(two_to(112) == 0x1_0000_0000_0000_0000_0000_0000_0000) by (nonlinear_arith)
        requires
            two_to(112) == two_to(96) * two_to(16),
            two_to(96) == 0x1_0000_0000_0000_0000_0000_0000,
            two_to(16) == 0x1_0000,
    ;
    assert(two_to(124) == 0x1000_0000_0000_0000_0000_0000_0000_0000) by (nonlinear_arith)
        requires
            two_to(124) == two_to(112) * two_to(12),
            two_to(112) == 0x1_0000_0000_0000_0000_0000_0000_0000,
            two_to(12) == 0x1000,
    ;
}

/// The decimal digits of `n`, least significant first, in normal form.
pub fn digits_of(n: u128) -> (ds: Vec<u8>)
    ensures
        le_canonical(ds@),
        le_value(ds@) == n,
{
    let mut ds: Vec<u8> = Vec::new();
    let mut m: u128 = n;
    proof {
        assert(le_value(ds@) == 0);
        assert(ten_to(0) == 1);
        assert(m * ten_to(0) == m) by (nonlinear_arith)
            requires
                ten_to(0) == 1,
        ;
    }
    while m >= 10
        invariant
            le_digits(ds@),
            n == le_value(ds@) + m * ten_to(ds@.len()),
            ds@.len() > 0 ==> m >= 1,
        decreases m,
    {
        let d: u8 = (m % 10) as u8;
        proof {
            lemma_le_value_push(ds@, d);
            let t = ten_to(ds@.len());
            assert((m % 10) * t + (m / 10) * (10 * t) == m * t) by (nonlinear_arith);
        }
        ds.push(d);
        m = m / 10;
    }
    let top: u8 = m as u8;
    proof {
        lemma_le_value_push(ds@, top);
    }
    ds.push(top);
    ds
}

/// Twice the number of a digit list, as a digit list.
pub(crate) fn double_digits(ds: &Vec<u8>) -> (r: Vec<u8>)
    requires
        le_canonical(ds@),
    ensures
        le_canonical(r@),
        le_value(r@) == 2 * le_value(ds@),
{
    let mut r: Vec<u8> = Vec::new();
    let mut carry: u8 = 0;
    let mut i: usize = 0;
    proof {
        assert(ds@.subrange(0, 0) =~= Seq::<u8>::empty());
    }
    while i < ds.len()
        invariant
            i <= ds.len(),
            le_canonical(ds@),
            le_digits(r@),
            r@.len() == i,
            carry <= 1,
            le_value(r@) + carry * ten_to(i as nat) == 2 * le_value(ds@.subrange(0, i as int)),
            i > 0 && carry == 0 && ds@[i - 1] != 0 ==> r@[i - 1] != 0,
        decreases ds.len() - i,
    {
        let d: u8 = ds[i];
        let s: u8 = 2 * d + carry;
        let low: u8 = s % 10;
        proof {
            let t = ten_to(i as nat);
            let head = ds@.subrange(0, i as int);
            assert(ds@.subrange(0, i + 1) =~= head.push(d));
            lemma_le_value_push(head, d);
            lemma_le_value_push(r@, low);
            assert(ten_to((i + 1) as nat) == 10 * t);
            assert((s % 10) * t + (s / 10) * (10 * t) == s * t) by (nonlinear_arith);
            assert(s * t == 2 * (d * t) + carry * t) by (nonlinear_arith)
                requires
                    s == 2 * d + carry,
            ;
        }
        r.push(low);
        carry = s / 10;
        i = i + 1;
    }
    proof {
        assert(ds@.subrange(0, i as int) =~= ds@);
    }
    if carry > 0 {
        proof {
            lemma_le_value_push(r@, carry);
        }
        r.push(carry);
    } else {
        proof {
            if ds@.len() > 1 {
                assert(ds@.last() != 0);
            }
        }
    }
    r
}

} // verus!
