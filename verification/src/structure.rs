//! What holds of the lines of every export.

use crate::digits::{
    all_digits, decimal, decimal_padded, decimal_signed, lemma_decimal_digits,
    lemma_decimal_padded_digits,
};
use crate::layout::{
    axis_line, export_lines, export_text, header_lines, lanes_from, lanes_upto, marker_line,
    row_text, sample_token, separator_line, slice_lines, slice_origin, slices_lines,
};
use crate::lines::{
    feed_free, free_of, lemma_lines_of_open_text, lemma_lines_of_text, lines_of,
};
use crate::number::{fraction_text, sign_text, Real};
use crate::settings::{AcquisitionOptions, Geometry};
use crate::volume::{VolumeData, VolumeHeader};
use vstd::prelude::*;

verus! {

/// Whether a character can stand in a rendered number.
pub open spec fn is_token_char(c: char) -> bool {
    ('0' <= c && c <= '9') || c == '-' || c == '.' || c == 'i' || c == 'n' || c == 'f' || c
        == 'N' || c == 'a'
}

/// Whether a text holds only characters of rendered numbers.
pub open spec fn token_text(text: Seq<char>) -> bool {
    forall|i: int| 0 <= i < text.len() ==> is_token_char(#[trigger] text[i])
}

/// Whether a text holds only characters of rendered numbers and spaces, as
/// a row of samples does.
pub open spec fn row_like(text: Seq<char>) -> bool {
    forall|i: int| 0 <= i < text.len() ==> is_token_char(#[trigger] text[i]) || text[i] == ' '
}

/// Whether every line is `row_like`.
pub open spec fn all_row_like(lines: Seq<Seq<char>>) -> bool {
    forall|k: int| 0 <= k < lines.len() ==> row_like(#[trigger] lines[k])
}

/// Whether a line is a slice marker: `Z: ` and then decimal digits, at
/// least one, and nothing else.
pub open spec fn is_marker_line(line: Seq<char>) -> bool {
    &&& line.len() > 3
    &&& line[0] == 'Z'
    &&& line[1] == ':'
    &&& line[2] == ' '
    &&& all_digits(line.subrange(3, line.len() as int))
}

/// The test for slice markers.
pub open spec fn marker_test() -> spec_fn(Seq<char>) -> bool {
    |line: Seq<char>| is_marker_line(line)
}

/// The test for the separator line.
pub open spec fn separator_test() -> spec_fn(Seq<char>) -> bool {
    |line: Seq<char>| line == separator_line()
}

/// The markers of the first `count` slices, in order.
pub open spec fn markers(count: nat) -> Seq<Seq<char>> {
    Seq::new(count, |z: int| marker_line(z as nat))
}

proof fn lemma_token_text_concat(a: Seq<char>, b: Seq<char>)
    requires
        token_text(a),
        token_text(b),
    ensures
        token_text(a + b),
{
    assert forall|i: int| 0 <= i < (a + b).len() implies is_token_char(#[trigger] (a + b)[i]) by {
        if i < a.len() {
            assert((a + b)[i] == a[i]);
        } else {
            assert((a + b)[i] == b[i - a.len()]);
        }
    }
}

proof fn lemma_row_like_concat(a: Seq<char>, b: Seq<char>)
    requires
        row_like(a),
        row_like(b),
    ensures
        row_like(a + b),
{
    assert forall|i: int| 0 <= i < (a + b).len() implies is_token_char(#[trigger] (a + b)[i]) || (a
        + b)[i] == ' ' by {
        if i < a.len() {
            assert((a + b)[i] == a[i]);
        } else {
            assert((a + b)[i] == b[i - a.len()]);
        }
    }
}

proof fn lemma_free_of_concat(a: Seq<char>, b: Seq<char>, sep: char)
    requires
        free_of(a, sep),
        free_of(b, sep),
    ensures
        free_of(a + b, sep),
{
    assert forall|i: int| 0 <= i < (a + b).len() implies #[trigger] (a + b)[i] != sep by {
        if i < a.len() {
            assert((a + b)[i] == a[i]);
        } else {
            assert((a + b)[i] == b[i - a.len()]);
        }
    }
}

proof fn lemma_feed_free_concat(a: Seq<Seq<char>>, b: Seq<Seq<char>>)
    requires
        feed_free(a),
        feed_free(b),
    ensures
        feed_free(a + b),
{
    assert forall|k: int| 0 <= k < (a + b).len() implies free_of(#[trigger] (a + b)[k], '\n') by {
        if k < a.len() {
            assert((a + b)[k] == a[k]);
        } else {
            assert((a + b)[k] == b[k - a.len()]);
        }
    }
}

proof fn lemma_all_row_like_concat(a: Seq<Seq<char>>, b: Seq<Seq<char>>)
    requires
        all_row_like(a),
        all_row_like(b),
    ensures
        all_row_like(a + b),
{
    assert forall|k: int| 0 <= k < (a + b).len() implies row_like(#[trigger] (a + b)[k]) by {
        if k < a.len() {
            assert((a + b)[k] == a[k]);
        } else {
            assert((a + b)[k] == b[k - a.len()]);
        }
    }
}

/// Decimal notation is made of characters of rendered numbers.
pub proof fn lemma_decimal_token(n: nat)
    ensures
        token_text(decimal(n)),
        decimal(n).len() >= 1,
{
    lemma_decimal_digits(n);
}

/// Signed decimal notation is made of characters of rendered numbers.
pub proof fn lemma_decimal_signed_token(i: int)
    ensures
        token_text(decimal_signed(i)),
{
    if i < 0 {
        lemma_decimal_token((-i) as nat);
        lemma_token_text_concat(seq!['-'], decimal((-i) as nat));
    } else {
        lemma_decimal_token(i as nat);
    }
}

/// Fixed-point notation is made of characters of rendered numbers, and of
/// at least one.
pub proof fn lemma_fixed_text_token(value: Real, places: nat)
    ensures
        token_text(value.fixed_text(places)),
        value.fixed_text(places).len() >= 1,
{
    match value {
        Real::Finite { negative, mantissa, exponent } => {
            let unit = crate::digits::ten_to(places);
            let whole = decimal(value.scaled(places) / unit);
            let fraction = fraction_text(value.scaled(places) % unit, places);
            lemma_decimal_token(value.scaled(places) / unit);
            lemma_decimal_padded_digits(value.scaled(places) % unit, places);
            if places > 0 {
                lemma_token_text_concat(
                    seq!['.'],
                    decimal_padded(value.scaled(places) % unit, places),
                );
            }
            lemma_token_text_concat(sign_text(negative), whole);
            lemma_token_text_concat(sign_text(negative) + whole, fraction);
        },
        Real::Infinite { negative } => {
            lemma_token_text_concat(sign_text(negative), seq!['i', 'n', 'f']);
        },
        Real::NotANumber => {},
    }
}

/// A text of rendered-number characters holds no space, no line feed, no
/// `=` and no `Z`.
pub proof fn lemma_token_text_plain(text: Seq<char>)
    requires
        token_text(text),
    ensures
        row_like(text),
        free_of(text, ' '),
        free_of(text, '\n'),
{
}

/// A row is made of rendered numbers and spaces.
pub proof fn lemma_row_like(volume: VolumeData, index: Seq<usize>, count: nat)
    ensures
        row_like(row_text(volume, index, count)),
    decreases count,
{
    if count == 0 {
    } else if count == 1 {
        lemma_fixed_text_token(volume.value_at(index.update(0, 0)), 10);
    } else {
        lemma_row_like(volume, index, (count - 1) as nat);
        let token = sample_token(volume, index.update(0, (count - 1) as usize));
        lemma_fixed_text_token(volume.value_at(index.update(0, (count - 1) as usize)), 10);
        lemma_row_like_concat(row_text(volume, index, (count - 1) as nat), seq![' ']);
        lemma_row_like_concat(row_text(volume, index, (count - 1) as nat) + seq![' '], token);
    }
}

/// The rows of a slice are made of rendered numbers and spaces.
pub proof fn lemma_lanes_row_like(volume: VolumeData, index: Seq<usize>, axis: nat)
    ensures
        all_row_like(lanes_from(volume, index, axis)),
    decreases volume.extents().len() - axis, 1nat, 0nat,
{
    let extents = volume.extents();
    if axis >= extents.len() {
        lemma_row_like(volume, index, extents[0] as nat);
    } else if axis == 2 {
        lemma_lanes_row_like(volume, index, axis + 1);
    } else {
        lemma_lanes_upto_row_like(volume, index, axis, extents[axis as int] as nat);
    }
}

/// The rows of the first places on an axis are made of rendered numbers and
/// spaces.
pub proof fn lemma_lanes_upto_row_like(
    volume: VolumeData,
    index: Seq<usize>,
    axis: nat,
    count: nat,
)
    ensures
        all_row_like(lanes_upto(volume, index, axis, count)),
    decreases volume.extents().len() - axis, 0nat, count,
{
    if axis >= volume.extents().len() || count == 0 {
    } else {
        lemma_lanes_upto_row_like(volume, index, axis, (count - 1) as nat);
        lemma_lanes_row_like(volume, index.update(axis as int, (count - 1) as usize), axis + 1);
        lemma_all_row_like_concat(
            lanes_upto(volume, index, axis, (count - 1) as nat),
            lanes_from(volume, index.update(axis as int, (count - 1) as usize), axis + 1),
        );
    }
}

/// A line of rendered numbers and spaces is no marker and no separator, and
/// holds no line feed.
pub proof fn lemma_row_like_plain(line: Seq<char>)
    requires
        row_like(line),
    ensures
        !is_marker_line(line),
        line != separator_line(),
        free_of(line, '\n'),
{
    if line.len() > 0 {
        assert(is_token_char(line[0]) || line[0] == ' ');
        assert(separator_line()[0] == '=');
    }
}

/// The marker of a slice is a marker, is not the separator, and holds no
/// line feed.
pub proof fn lemma_marker_line(z: nat)
    ensures
        is_marker_line(marker_line(z)),
        marker_line(z) != separator_line(),
        free_of(marker_line(z), '\n'),
{
    reveal_strlit("Z: ");
    lemma_decimal_digits(z);
    let line = marker_line(z);
    assert(line.subrange(3, line.len() as int) =~= decimal(z));
    assert(line[0] == 'Z');
    assert(separator_line()[0] == '=');
    assert forall|i: int| 0 <= i < line.len() implies #[trigger] line[i] != '\n' by {
        if i >= 3 {
            assert(line[i] == decimal(z)[i - 3]);
        }
    }
}

/// A list none of whose entries passes a test is filtered to nothing.
pub proof fn lemma_filter_none(lines: Seq<Seq<char>>, test: spec_fn(Seq<char>) -> bool)
    requires
        forall|k: int| 0 <= k < lines.len() ==> !test(#[trigger] lines[k]),
    ensures
        lines.filter(test) == Seq::<Seq<char>>::empty(),
    decreases lines.len(),
{
    reveal(Seq::filter);
    if lines.len() > 0 {
        let before = lines.drop_last();
        assert forall|k: int| 0 <= k < before.len() implies !test(#[trigger] before[k]) by {
            assert(before[k] == lines[k]);
        }
        lemma_filter_none(before, test);
        assert(!test(lines[lines.len() - 1]));
    }
}

/// A single line is kept by a test that it passes.
pub proof fn lemma_filter_one(line: Seq<char>, test: spec_fn(Seq<char>) -> bool)
    ensures
        test(line) ==> seq![line].filter(test) == seq![line],
        !test(line) ==> seq![line].filter(test) == Seq::<Seq<char>>::empty(),
{
    reveal(Seq::filter);
    let one = seq![line];
    assert(one.drop_last() =~= Seq::<Seq<char>>::empty());
    assert(one.drop_last().filter(test) =~= Seq::<Seq<char>>::empty());
    assert(one.last() == line);
    if test(line) {
        assert(Seq::<Seq<char>>::empty().push(line) =~= one);
    }
}

/// Of the lines of one slice, the marker alone is a marker, and none is the
/// separator.
pub proof fn lemma_slice_lines(volume: VolumeData, z: usize)
    ensures
        feed_free(slice_lines(volume, z)),
        slice_lines(volume, z).filter(marker_test()) == seq![marker_line(z as nat)],
        slice_lines(volume, z).filter(separator_test()) == Seq::<Seq<char>>::empty(),
{
    let marker = marker_line(z as nat);
    let rows = lanes_from(volume, slice_origin(volume.extents().len(), z), 1);
    lemma_marker_line(z as nat);
    lemma_lanes_row_like(volume, slice_origin(volume.extents().len(), z), 1);
    assert forall|k: int| 0 <= k < rows.len() implies !marker_test()(#[trigger] rows[k])
        && !separator_test()(rows[k]) && free_of(rows[k], '\n') by {
        lemma_row_like_plain(rows[k]);
    }
    assert(feed_free(rows));
    assert(feed_free(seq![marker]));
    lemma_feed_free_concat(seq![marker], rows);
    lemma_filter_none(rows, marker_test());
    lemma_filter_none(rows, separator_test());
    lemma_filter_one(marker, marker_test());
    lemma_filter_one(marker, separator_test());
    Seq::filter_distributes_over_add(seq![marker], rows, marker_test());
    Seq::filter_distributes_over_add(seq![marker], rows, separator_test());
    assert(seq![marker] + Seq::<Seq<char>>::empty() =~= seq![marker]);
}

/// The empty line is no marker and no separator.
pub proof fn lemma_blank_line()
    ensures
        seq![Seq::<char>::empty()].filter(marker_test()) == Seq::<Seq<char>>::empty(),
        seq![Seq::<char>::empty()].filter(separator_test()) == Seq::<Seq<char>>::empty(),
        feed_free(seq![Seq::<char>::empty()]),
{
    let blank = Seq::<char>::empty();
    assert(row_like(blank));
    lemma_row_like_plain(blank);
    lemma_filter_one(blank, marker_test());
    lemma_filter_one(blank, separator_test());
}

/// What a test keeps of the first slices, given what it keeps of each.
proof fn lemma_slices_filter(
    volume: VolumeData,
    count: nat,
    test: spec_fn(Seq<char>) -> bool,
    kept_before: Seq<Seq<char>>,
    kept_slice: Seq<Seq<char>>,
)
    requires
        2 <= count <= usize::MAX,
        slices_lines(volume, (count - 1) as nat).filter(test) == kept_before,
        seq![Seq::<char>::empty()].filter(test) == Seq::<Seq<char>>::empty(),
        slice_lines(volume, (count - 1) as usize).filter(test) == kept_slice,
    ensures
        slices_lines(volume, count).filter(test) == kept_before + kept_slice,
{
    let before = slices_lines(volume, (count - 1) as nat);
    let gap = seq![Seq::<char>::empty()];
    let slice = slice_lines(volume, (count - 1) as usize);
    Seq::filter_distributes_over_add(before, gap, test);
    Seq::filter_distributes_over_add(before + gap, slice, test);
    assert(kept_before + Seq::<Seq<char>>::empty() =~= kept_before);
}

/// The lines of one slice hold no line feed.
pub proof fn lemma_slice_feed_free(volume: VolumeData, z: usize)
    ensures
        feed_free(slice_lines(volume, z)),
{
    lemma_slice_lines(volume, z);
}

/// An empty line added to lines without line feed leaves them so.
proof fn lemma_feed_free_gap(before: Seq<Seq<char>>, slice: Seq<Seq<char>>)
    requires
        feed_free(before),
        feed_free(slice),
    ensures
        feed_free(before + seq![Seq::<char>::empty()] + slice),
{
    let gap = seq![Seq::<char>::empty()];
    assert(feed_free(gap)) by {
        assert forall|k: int| 0 <= k < gap.len() implies free_of(#[trigger] gap[k], '\n') by {
            assert(gap[k].len() == 0);
        }
    }
    lemma_feed_free_concat(before, gap);
    lemma_feed_free_concat(before + gap, slice);
}

/// The lines of the first slices hold no line feed.
pub proof fn lemma_slices_feed_free(volume: VolumeData, count: nat)
    requires
        count <= usize::MAX,
    ensures
        feed_free(slices_lines(volume, count)),
    decreases count,
{
    if count == 0 {
    } else if count == 1 {
        lemma_slice_feed_free(volume, 0);
    } else {
        let before = slices_lines(volume, (count - 1) as nat);
        let slice = slice_lines(volume, (count - 1) as usize);
        lemma_slices_feed_free(volume, (count - 1) as nat);
        lemma_slice_feed_free(volume, (count - 1) as usize);
        lemma_feed_free_gap(before, slice);
    }
}

/// The markers of the slices, one longer.
proof fn lemma_markers_push(count: nat)
    requires
        count >= 1,
    ensures
        markers(count) == markers((count - 1) as nat) + seq![marker_line((count - 1) as nat)],
{
    assert(markers(count) =~= markers((count - 1) as nat) + seq![
        marker_line((count - 1) as nat),
    ]);
}

/// Of the lines of the first slices, the markers are those of the slices in
/// order, and none is the separator.
pub proof fn lemma_slices_lines(volume: VolumeData, count: nat)
    requires
        count <= usize::MAX,
    ensures
        feed_free(slices_lines(volume, count)),
        slices_lines(volume, count).filter(marker_test()) == markers(count),
        slices_lines(volume, count).filter(separator_test()) == Seq::<Seq<char>>::empty(),
    decreases count,
{
    let none = Seq::<Seq<char>>::empty();
    lemma_slices_feed_free(volume, count);
    if count == 0 {
        lemma_filter_none(none, marker_test());
        lemma_filter_none(none, separator_test());
        assert(markers(0) =~= none);
    } else if count == 1 {
        lemma_slice_lines(volume, 0);
        lemma_markers_push(1);
        assert(markers(0) =~= none);
        assert(none + seq![marker_line(0)] =~= seq![marker_line(0)]);
    } else {
        let z = (count - 1) as usize;
        lemma_slices_lines(volume, (count - 1) as nat);
        lemma_slice_lines(volume, z);
        lemma_blank_line();
        lemma_slices_filter(
            volume,
            count,
            marker_test(),
            markers((count - 1) as nat),
            seq![marker_line(z as nat)],
        );
        lemma_slices_filter(volume, count, separator_test(), none, none);
        lemma_markers_push(count);
        assert(none + none =~= none);
    }
}

/// A line of the grid dimensions is no marker and no separator, and holds
/// no line feed.
pub proof fn lemma_axis_line(letter: char, offset: Real, max: Real, extent: nat)
    requires
        letter == 'X' || letter == 'Y' || letter == 'Z',
    ensures
        !is_marker_line(axis_line(letter, offset, max, extent)),
        axis_line(letter, offset, max, extent) != separator_line(),
        free_of(axis_line(letter, offset, max, extent), '\n'),
{
    let line = axis_line(letter, offset, max, extent);
    let first = offset.fixed_text(6);
    let second = max.fixed_text(6);
    lemma_fixed_text_token(offset, 6);
    lemma_fixed_text_token(max, 6);
    lemma_decimal_token(extent);
    lemma_token_text_plain(first);
    lemma_token_text_plain(second);
    lemma_token_text_plain(decimal(extent));
    let lead = seq![letter, ':', ' '];
    assert(free_of(lead, '\n'));
    assert(free_of(seq![' '], '\n'));
    lemma_free_of_concat(lead, first, '\n');
    lemma_free_of_concat(lead + first, seq![' '], '\n');
    lemma_free_of_concat(lead + first + seq![' '], second, '\n');
    lemma_free_of_concat(lead + first + seq![' '] + second, seq![' '], '\n');
    lemma_free_of_concat(lead + first + seq![' '] + second + seq![' '], decimal(extent), '\n');
    assert(line[0] == letter);
    assert(separator_line()[0] == '=');
    let tail = line.subrange(3, line.len() as int);
    let gap = first.len() as int;
    assert(tail[gap] == line[3 + gap]);
    assert(line[3 + gap] == ' ');
}

/// The header block has ten lines, none a marker or the separator, and none
/// with a line feed unless the path holds one.
pub proof fn lemma_header_lines(
    path: Seq<char>,
    options: AcquisitionOptions,
    header: VolumeHeader,
    geometry: Geometry,
    extents: Seq<usize>,
)
    requires
        free_of(path, '\n'),
    ensures
        header_lines(path, options, header, geometry, extents).len() == 10,
        feed_free(header_lines(path, options, header, geometry, extents)),
        header_lines(path, options, header, geometry, extents).filter(marker_test()) == Seq::<
            Seq<char>,
        >::empty(),
        header_lines(path, options, header, geometry, extents).filter(separator_test()) == Seq::<
            Seq<char>,
        >::empty(),
{
    let lines = header_lines(path, options, header, geometry, extents);
    let blank = Seq::<char>::empty();
    let title = "BESA_SA_IMAGE:2.0"@;
    let data = "Data file:          "@ + path;
    let notch = "Condition:          Correct  Notch filter: 60 Hz"@;
    let condition = options.condition_text();
    let grid = "Grid dimensions ([min] [max] [nr of locations]):"@;
    let x = axis_line('X', header.x_offset, geometry.x_max, extents[0] as nat);
    let y = axis_line('Y', header.y_offset, geometry.y_max, extents[1] as nat);
    let z = axis_line('Z', header.z_offset, geometry.z_max, extents[2] as nat);
    reveal_strlit("BESA_SA_IMAGE:2.0");
    reveal_strlit("Data file:          ");
    reveal_strlit("Condition:          Correct  Notch filter: 60 Hz");
    reveal_strlit("Grid dimensions ([min] [max] [nr of locations]):");
    assert(separator_line()[0] == '=');
    assert(title[0] == 'B' && free_of(title, '\n'));
    assert(notch[0] == 'C' && free_of(notch, '\n'));
    assert(grid[0] == 'G' && free_of(grid, '\n'));
    assert(data[0] == 'D') by {
        assert(data[0] == "Data file:          "@[0]);
    }
    assert(free_of("Data file:          "@, '\n'));
    lemma_free_of_concat("Data file:          "@, path, '\n');
    lemma_condition_text(options);
    lemma_axis_line('X', header.x_offset, geometry.x_max, extents[0] as nat);
    lemma_axis_line('Y', header.y_offset, geometry.y_max, extents[1] as nat);
    lemma_axis_line('Z', header.z_offset, geometry.z_max, extents[2] as nat);
    assert(lines[0] == title && lines[1] == blank && lines[2] == data && lines[3] == notch
        && lines[4] == condition && lines[5] == blank && lines[6] == grid && lines[7] == x
        && lines[8] == y && lines[9] == z);
    assert forall|k: int| 0 <= k < lines.len() implies !marker_test()(#[trigger] lines[k])
        && !separator_test()(lines[k]) && free_of(lines[k], '\n') by {
        assert(k == 0 || k == 1 || k == 2 || k == 3 || k == 4 || k == 5 || k == 6 || k == 7 || k
            == 8 || k == 9);
    }
    lemma_filter_none(lines, marker_test());
    lemma_filter_none(lines, separator_test());
}

/// The condition line begins with `C` and holds no line feed.
pub proof fn lemma_condition_text(options: AcquisitionOptions)
    ensures
        options.condition_text().len() > 0,
        options.condition_text()[0] == 'C',
        free_of(options.condition_text(), '\n'),
{
    reveal_strlit("Correct ");
    reveal_strlit(" : ");
    reveal_strlit(" ms ");
    reveal_strlit("-");
    reveal_strlit(" Hz MSBF (TF) q%");
    let a = "Correct "@;
    let b = decimal_signed(options.correct as int);
    let c = " : "@;
    let d = decimal_signed(options.window_ms as int);
    let e = " ms "@;
    let f = options.lower_hz.fixed_text(1);
    let g = "-"@;
    let h = options.upper_hz.fixed_text(1);
    let i = " Hz MSBF (TF) q%"@;
    lemma_decimal_signed_token(options.correct as int);
    lemma_decimal_signed_token(options.window_ms as int);
    lemma_fixed_text_token(options.lower_hz, 1);
    lemma_fixed_text_token(options.upper_hz, 1);
    lemma_token_text_plain(b);
    lemma_token_text_plain(d);
    lemma_token_text_plain(f);
    lemma_token_text_plain(h);
    assert(free_of(a, '\n') && free_of(c, '\n') && free_of(e, '\n') && free_of(g, '\n')
        && free_of(i, '\n'));
    lemma_free_of_concat(a, b, '\n');
    lemma_free_of_concat(a + b, c, '\n');
    lemma_free_of_concat(a + b + c, d, '\n');
    lemma_free_of_concat(a + b + c + d, e, '\n');
    lemma_free_of_concat(a + b + c + d + e, f, '\n');
    lemma_free_of_concat(a + b + c + d + e + f, g, '\n');
    lemma_free_of_concat(a + b + c + d + e + f + g, h, '\n');
    lemma_free_of_concat(a + b + c + d + e + f + g + h, i, '\n');
    assert(options.condition_text()[0] == a[0]);
}

/// The lines of an export hold no line feed unless the path does.
pub proof fn lemma_export_lines_feed_free(
    path: Seq<char>,
    options: AcquisitionOptions,
    header: VolumeHeader,
    geometry: Geometry,
    volume: VolumeData,
)
    requires
        free_of(path, '\n'),
    ensures
        feed_free(export_lines(path, options, header, geometry, volume)),
        free_of(separator_line(), '\n'),
{
    let head = header_lines(path, options, header, geometry, volume.extents());
    let slices = slices_lines(volume, volume.extents()[2] as nat);
    lemma_header_lines(path, options, header, geometry, volume.extents());
    lemma_slices_lines(volume, volume.extents()[2] as nat);
    assert(free_of(separator_line(), '\n'));
    assert(feed_free(seq![separator_line()]));
    lemma_feed_free_concat(head, seq![separator_line()]);
    lemma_feed_free_concat(head + seq![separator_line()], slices);
}

/// The text of an export, read line by line, gives the lines of the export:
/// the ten of the header block, the separator, and those of the slices.
/// This holds for every path without a line feed.
pub proof fn lemma_export_reads_back(
    path: Seq<char>,
    options: AcquisitionOptions,
    header: VolumeHeader,
    geometry: Geometry,
    volume: VolumeData,
)
    requires
        free_of(path, '\n'),
    ensures
        lines_of(export_text(path, options, header, geometry, volume)) == export_lines(
            path,
            options,
            header,
            geometry,
            volume,
        ),
{
    let head = header_lines(path, options, header, geometry, volume.extents());
    lemma_export_lines_feed_free(path, options, header, geometry, volume);
    lemma_header_lines(path, options, header, geometry, volume.extents());
    if volume.extents()[2] == 0 {
        lemma_lines_of_open_text(head, separator_line());
        assert(slices_lines(volume, 0) =~= Seq::<Seq<char>>::empty());
        assert(head.push(separator_line()) =~= export_lines(
            path,
            options,
            header,
            geometry,
            volume,
        ));
    } else {
        lemma_lines_of_text(export_lines(path, options, header, geometry, volume));
    }
}

/// An export has exactly one marker line `Z: <i>` for each slice, with `i`
/// running from zero upwards in the order of the text.  This holds for
/// every path without a line feed.
pub proof fn lemma_one_marker_per_slice(
    path: Seq<char>,
    options: AcquisitionOptions,
    header: VolumeHeader,
    geometry: Geometry,
    volume: VolumeData,
)
    requires
        free_of(path, '\n'),
    ensures
        lines_of(export_text(path, options, header, geometry, volume)).filter(marker_test())
            == markers(volume.extents()[2] as nat),
{
    let head = header_lines(path, options, header, geometry, volume.extents());
    let slices = slices_lines(volume, volume.extents()[2] as nat);
    let separator = separator_line();
    lemma_export_reads_back(path, options, header, geometry, volume);
    lemma_header_lines(path, options, header, geometry, volume.extents());
    lemma_slices_lines(volume, volume.extents()[2] as nat);
    assert(row_like(Seq::<char>::empty()));
    assert(!is_marker_line(separator)) by {
        assert(separator[0] == '=');
    }
    lemma_filter_one(separator, marker_test());
    Seq::filter_distributes_over_add(head, seq![separator], marker_test());
    Seq::filter_distributes_over_add(head + seq![separator], slices, marker_test());
    assert(Seq::<Seq<char>>::empty() + Seq::<Seq<char>>::empty() + markers(
        volume.extents()[2] as nat,
    ) =~= markers(volume.extents()[2] as nat));
}

/// The separator is 94 `=` characters, and exactly one line of an export is
/// the separator: the eleventh.  This holds for every path without a line
/// feed.
pub proof fn lemma_separator_once(
    path: Seq<char>,
    options: AcquisitionOptions,
    header: VolumeHeader,
    geometry: Geometry,
    volume: VolumeData,
)
    requires
        free_of(path, '\n'),
    ensures
        separator_line().len() == 94,
        forall|i: int| 0 <= i < 94 ==> separator_line()[i] == '=',
        lines_of(export_text(path, options, header, geometry, volume)).filter(separator_test())
            == seq![separator_line()],
        lines_of(export_text(path, options, header, geometry, volume))[10] == separator_line(),
{
    let head = header_lines(path, options, header, geometry, volume.extents());
    let slices = slices_lines(volume, volume.extents()[2] as nat);
    let separator = separator_line();
    lemma_export_reads_back(path, options, header, geometry, volume);
    lemma_header_lines(path, options, header, geometry, volume.extents());
    lemma_slices_lines(volume, volume.extents()[2] as nat);
    lemma_filter_one(separator, separator_test());
    Seq::filter_distributes_over_add(head, seq![separator], separator_test());
    Seq::filter_distributes_over_add(head + seq![separator], slices, separator_test());
    assert(Seq::<Seq<char>>::empty() + seq![separator] + Seq::<Seq<char>>::empty() =~= seq![
        separator,
    ]);
    assert((head + seq![separator] + slices)[10] == separator);
}

} // verus!
