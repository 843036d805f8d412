//! What holds of every rendered number, and of the rows they stand in.

use crate::digits::{
    decimal, decimal_padded, digits_value, lemma_decimal_digits, lemma_decimal_padded_digits,
    lemma_decimal_padded_reads_back, lemma_decimal_reads_back, lemma_ten_to_positive,
    lemma_two_to_positive, ten_to,
};
use crate::layout::{
    export_lines, export_text, lanes_from, lanes_upto, row_text, sample_token,
    slice_lines, slice_origin, slices_lines,
};
use crate::lines::{lemma_split_extend, lemma_split_plain, lemma_split_push, split};
use crate::number::{round_half_even, sign_text, Real};
use crate::settings::{AcquisitionOptions, Geometry};
use crate::structure::{lemma_fixed_text_token, lemma_token_text_plain};
use crate::volume::{within, VolumeData, VolumeHeader};
use vstd::arithmetic::div_mod::*;
use vstd::prelude::*;

verus! {

/// A rendered number without its sign.
pub open spec fn unsigned_part(token: Seq<char>) -> Seq<char> {
    if token.len() > 0 && token[0] == '-' {
        token.drop_first()
    } else {
        token
    }
}

/// The magnitude that a fixed-point token writes, in units of its last
/// fraction digit: the digits before the point and the `places` digits after
/// it, read as one number.
pub open spec fn fixed_reading(token: Seq<char>, places: nat) -> nat {
    let body = unsigned_part(token);
    let whole = body.subrange(0, body.len() - places - 1);
    let fraction = body.subrange(body.len() - places, body.len() as int);
    digits_value(whole) * ten_to(places) + digits_value(fraction)
}

/// The samples of a row as they stand in it, in order.
pub open spec fn row_tokens(volume: VolumeData, index: Seq<usize>, count: nat) -> Seq<Seq<char>> {
    Seq::new(count, |x: int| sample_token(volume, index.update(0, x as usize)))
}

/// Whether two volumes have the same shape and, cell by cell, samples of
/// the same value.
pub open spec fn same_samples(first: VolumeData, second: VolumeData) -> bool {
    &&& first.extents() == second.extents()
    &&& forall|index: Seq<usize>| #[trigger]
        within(first.extents(), index) ==> first.value_at(index).same_value(
            second.value_at(index),
        )
}

/// A rounded quotient is within half a unit of the exact one.
pub proof fn lemma_rounding_error(n: nat, d: nat)
    requires
        d > 0,
    ensures
        -(d as int) <= 2 * (round_half_even(n, d) * d - n) <= d,
{
    let q = n / d;
    let r = n % d;
    lemma_fundamental_div_mod(n as int, d as int);
    lemma_mod_bound(n as int, d as int);
    assert(n == d * q + r);
    assert((q + 1) * d - n == d - r) by (nonlinear_arith)
        requires
            n == d * q + r,
    ;
    assert(q * d - n == -(r as int)) by (nonlinear_arith)
        requires
            n == d * q + r,
    ;
}

/// Equal fractions round to the same number.
pub proof fn lemma_round_same(n1: nat, d1: nat, n2: nat, d2: nat)
    requires
        d1 > 0,
        d2 > 0,
        n1 * d2 == n2 * d1,
    ensures
        round_half_even(n1, d1) == round_half_even(n2, d2),
{
    let q = (n1 / d1) as int;
    let r1 = (n1 % d1) as int;
    lemma_fundamental_div_mod(n1 as int, d1 as int);
    lemma_mod_bound(n1 as int, d1 as int);
    let r2 = n2 - q * d2;
    assert(r2 * d1 == r1 * d2) by (nonlinear_arith)
        requires
            n1 == d1 * q + r1,
            n1 * d2 == n2 * d1,
            r2 == n2 - q * d2,
    ;
    assert(0 <= r2 < d2) by (nonlinear_arith)
        requires
            r2 * d1 == r1 * d2,
            0 <= r1 < d1,
            d2 > 0,
    ;
    lemma_fundamental_div_mod_converse(n2 as int, d2 as int, q, r2);
    assert(n2 / d2 == q && n2 % d2 == r2);
    assert((2 * r1 < d1) == (2 * r2 < d2)) by (nonlinear_arith)
        requires
            r2 * d1 == r1 * d2,
            d1 > 0,
            d2 > 0,
    ;
    assert((2 * r1 == d1) == (2 * r2 == d2)) by (nonlinear_arith)
        requires
            r2 * d1 == r1 * d2,
            d1 > 0,
            d2 > 0,
    ;
}

/// The scaled magnitude of a finite value is its exact magnitude, times the
/// power of ten, rounded.
pub proof fn lemma_scaled_is_rounded(value: Real, places: nat)
    requires
        value.is_finite(),
    ensures
        value.denominator() > 0,
        value.scaled(places) == round_half_even(
            value.numerator() * ten_to(places),
            value.denominator(),
        ),
{
    match value {
        Real::Finite { negative, mantissa, exponent } => {
            if exponent >= 0 {
                let n = value.numerator() * ten_to(places);
                assert(n / 1 == n && n % 1 == 0);
            } else {
                lemma_two_to_positive((-exponent) as nat);
            }
        },
        _ => {},
    }
}

/// A finite value and its rendering with `places` fraction digits differ by
/// at most half a unit of the last digit: with ten places, by at most
/// 0.00000000005.  The rendering is stated in units of its last digit, the
/// value as `numerator / denominator`.
pub proof fn lemma_rendering_within_half_unit(value: Real, places: nat)
    requires
        value.is_finite(),
    ensures
        -(value.denominator() as int) <= 2 * (value.scaled(places) * value.denominator()
            - value.numerator() * ten_to(places)) <= value.denominator(),
{
    lemma_scaled_is_rounded(value, places);
    lemma_rounding_error(value.numerator() * ten_to(places), value.denominator());
}

/// The token of a finite value reads back as the scaled magnitude that it
/// was made from, with a minus sign exactly for a negative value and the
/// point before the last `places` digits.
pub proof fn lemma_token_reads_back(value: Real, places: nat)
    requires
        value.is_finite(),
        places >= 1,
    ensures
        fixed_reading(value.fixed_text(places), places) == value.scaled(places),
        (value.fixed_text(places)[0] == '-') == (value matches Real::Finite {
            negative: true,
            ..
        }),
        value.fixed_text(places).len() >= places + 2,
        value.fixed_text(places)[value.fixed_text(places).len() - places - 1] == '.',
{
    match value {
        Real::Finite { negative, mantissa, exponent } => {
            let unit = ten_to(places);
            let scaled = value.scaled(places);
            let whole = decimal(scaled / unit);
            let fraction = decimal_padded(scaled % unit, places);
            let token = value.fixed_text(places);
            let body = whole + (seq!['.'] + fraction);
            lemma_ten_to_positive(places);
            lemma_decimal_digits(scaled / unit);
            lemma_decimal_padded_digits(scaled % unit, places);
            lemma_decimal_reads_back(scaled / unit);
            lemma_decimal_padded_reads_back(scaled % unit, places);
            lemma_fundamental_div_mod(scaled as int, unit as int);
            lemma_mod_bound(scaled as int, unit as int);
            lemma_small_mod(scaled % unit, unit);
            assert(whole[0] != '-');
            assert(token =~= sign_text(negative) + body);
            if negative {
                assert(token[0] == '-');
                assert(token.drop_first() =~= body);
            } else {
                assert(token =~= body);
                assert(token[0] == whole[0]);
            }
            assert(unsigned_part(token) == body);
            assert(body.subrange(0, body.len() - places - 1) =~= whole);
            assert(body.subrange(body.len() - places, body.len() as int) =~= fraction);
            assert(body[body.len() - places - 1] == '.');
            assert(token[token.len() - places - 1] == '.');
            assert((scaled / unit) * unit + scaled % unit == scaled) by (nonlinear_arith)
                requires
                    scaled == unit * (scaled / unit) + scaled % unit,
            ;
        },
        _ => {},
    }
}

/// A row of `count` samples, cut at its spaces, gives exactly `count`
/// tokens: those of its samples, in order.
pub proof fn lemma_row_fields(volume: VolumeData, index: Seq<usize>, count: nat)
    requires
        1 <= count <= usize::MAX,
    ensures
        split(row_text(volume, index, count), ' ') == row_tokens(volume, index, count),
        row_tokens(volume, index, count).len() == count,
    decreases count,
{
    let last = (count - 1) as usize;
    let token = sample_token(volume, index.update(0, last));
    lemma_fixed_text_token(volume.value_at(index.update(0, last)), 10);
    lemma_token_text_plain(token);
    if count == 1 {
        lemma_split_plain(token, ' ');
        assert(seq![token] =~= row_tokens(volume, index, 1));
    } else {
        let before = row_text(volume, index, (count - 1) as nat);
        lemma_row_fields(volume, index, (count - 1) as nat);
        lemma_split_push(before, ' ');
        lemma_split_extend(before.push(' '), token, ' ');
        assert(before + seq![' '] =~= before.push(' '));
        let fields = row_tokens(volume, index, (count - 1) as nat);
        assert(fields.push(Seq::<char>::empty()).drop_last() =~= fields);
        assert(Seq::<char>::empty() + token =~= token);
        assert(fields.push(token) =~= row_tokens(volume, index, count));
    }
}

/// Two values that are the same number render to the same text, however
/// each is held: a sample realized at 32 bits and the same sample at 64 bits
/// cannot be told apart in the export.
pub proof fn lemma_same_value_same_text(first: Real, second: Real, places: nat)
    requires
        first.same_value(second),
    ensures
        first.fixed_text(places) == second.fixed_text(places),
{
    if first.is_finite() {
        let unit = ten_to(places);
        lemma_scaled_is_rounded(first, places);
        lemma_scaled_is_rounded(second, places);
        let n1 = first.numerator();
        let n2 = second.numerator();
        let d1 = first.denominator();
        let d2 = second.denominator();
        assert((n1 * unit) * d2 == (n2 * unit) * d1) by (nonlinear_arith)
            requires
                n1 * d2 == n2 * d1,
        ;
        lemma_round_same(n1 * unit, d1, n2 * unit, d2);
    }
}

/// Rows of two volumes with the same samples are the same text.
pub proof fn lemma_same_rows(
    first: VolumeData,
    second: VolumeData,
    index: Seq<usize>,
    count: nat,
)
    requires
        same_samples(first, second),
        index.len() == first.extents().len(),
        index.len() >= 1,
        count <= first.extents()[0],
        forall|axis: int| 1 <= axis < index.len() ==> index[axis] < first.extents()[axis],
    ensures
        row_text(first, index, count) == row_text(second, index, count),
    decreases count,
{
    if count > 0 {
        let cell = index.update(0, (count - 1) as usize);
        assert(within(first.extents(), cell));
        lemma_same_value_same_text(first.value_at(cell), second.value_at(cell), 10);
        if count > 1 {
            lemma_same_rows(first, second, index, (count - 1) as nat);
        }
    }
}

/// The rows of a slice of two volumes with the same samples are the same.
pub proof fn lemma_same_lanes(
    first: VolumeData,
    second: VolumeData,
    index: Seq<usize>,
    axis: nat,
)
    requires
        same_samples(first, second),
        index.len() == first.extents().len(),
        index.len() >= 3,
        axis >= 1,
        index[2] < first.extents()[2],
        forall|k: int| 1 <= k < axis && k < index.len() ==> index[k] < first.extents()[k],
    ensures
        lanes_from(first, index, axis) == lanes_from(second, index, axis),
    decreases first.extents().len() - axis, 1nat, 0nat,
{
    let extents = first.extents();
    if axis >= extents.len() {
        lemma_same_rows(first, second, index, extents[0] as nat);
    } else if axis == 2 {
        lemma_same_lanes(first, second, index, axis + 1);
    } else {
        lemma_same_lanes_upto(first, second, index, axis, extents[axis as int] as nat);
    }
}

/// The rows of the first places on an axis of two volumes with the same
/// samples are the same.
pub proof fn lemma_same_lanes_upto(
    first: VolumeData,
    second: VolumeData,
    index: Seq<usize>,
    axis: nat,
    count: nat,
)
    requires
        same_samples(first, second),
        index.len() == first.extents().len(),
        index.len() >= 3,
        1 <= axis < index.len(),
        axis != 2,
        count <= first.extents()[axis as int],
        index[2] < first.extents()[2],
        forall|k: int| 1 <= k < axis ==> index[k] < first.extents()[k],
    ensures
        lanes_upto(first, index, axis, count) == lanes_upto(second, index, axis, count),
    decreases first.extents().len() - axis, 0nat, count,
{
    if count > 0 {
        lemma_same_lanes_upto(first, second, index, axis, (count - 1) as nat);
        lemma_same_lanes(
            first,
            second,
            index.update(axis as int, (count - 1) as usize),
            axis + 1,
        );
    }
}

/// The first slices of two volumes with the same samples have the same
/// lines.
pub proof fn lemma_same_slices(first: VolumeData, second: VolumeData, count: nat)
    requires
        same_samples(first, second),
        first.extents().len() >= 3,
        count <= first.extents()[2],
    ensures
        slices_lines(first, count) == slices_lines(second, count),
    decreases count,
{
    if count > 0 {
        let z = (count - 1) as usize;
        let origin = slice_origin(first.extents().len(), z);
        lemma_same_lanes(first, second, origin, 1);
        assert(slice_lines(first, z) == slice_lines(second, z));
        if count > 1 {
            lemma_same_slices(first, second, (count - 1) as nat);
        }
    }
}

/// Two volumes with the same shape and samples of the same values export to
/// the same text, whatever the width at which each holds its samples.
pub proof fn lemma_same_samples_same_export(
    path: Seq<char>,
    options: AcquisitionOptions,
    header: VolumeHeader,
    geometry: Geometry,
    first: VolumeData,
    second: VolumeData,
)
    requires
        same_samples(first, second),
        first.extents().len() >= 3,
    ensures
        export_text(path, options, header, geometry, first) == export_text(
            path,
            options,
            header,
            geometry,
            second,
        ),
{
    lemma_same_slices(first, second, first.extents()[2] as nat);
    assert(export_lines(path, options, header, geometry, first) == export_lines(
        path,
        options,
        header,
        geometry,
        second,
    ));
}

} // verus!
