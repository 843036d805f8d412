//! The layout of an export: which lines it has, and the text they make.

use crate::digits::decimal;
use crate::number::Real;
use crate::settings::{AcquisitionOptions, Geometry};
use crate::text::push_decimal;
use crate::volume::{within, VolumeData, VolumeHeader};
use vstd::prelude::*;
use vstd::string::StringExecFns;

verus! {

/// Number of fraction digits of an offset or a maximum in the header block.
pub const CALIBRATION_PLACES: u32 = 6;

/// Number of fraction digits of a sample.
pub const SAMPLE_PLACES: u32 = 10;

/// Number of `=` characters in the separator line.
pub const SEPARATOR_WIDTH: usize = 94;

/// The text made of the given lines, each followed by a line feed.
pub open spec fn text_of(lines: Seq<Seq<char>>) -> Seq<char>
    decreases lines.len(),
{
    if lines.len() == 0 {
        Seq::empty()
    } else {
        text_of(lines.drop_last()) + lines.last() + seq!['\n']
    }
}

/// The line that parts the header block from the slices.
pub open spec fn separator_line() -> Seq<char> {
    Seq::new(94, |i: int| '=')
}

/// One line of the grid dimensions: the letter of the axis, then offset,
/// maximum and number of locations.
pub open spec fn axis_line(letter: char, offset: Real, max: Real, extent: nat) -> Seq<char> {
    seq![letter, ':', ' '] + offset.fixed_text(6) + seq![' '] + max.fixed_text(6) + seq![' ']
        + decimal(extent)
}

/// The ten lines of the header block.
pub open spec fn header_lines(
    path: Seq<char>,
    options: AcquisitionOptions,
    header: VolumeHeader,
    geometry: Geometry,
    extents: Seq<usize>,
) -> Seq<Seq<char>> {
    Seq::<Seq<char>>::empty().push("BESA_SA_IMAGE:2.0"@).push(Seq::empty()).push(
        "Data file:          "@ + path,
    ).push("Condition:          Correct  Notch filter: 60 Hz"@).push(
        options.condition_text(),
    ).push(Seq::empty()).push("Grid dimensions ([min] [max] [nr of locations]):"@).push(
        axis_line('X', header.x_offset, geometry.x_max, extents[0] as nat),
    ).push(axis_line('Y', header.y_offset, geometry.y_max, extents[1] as nat)).push(
        axis_line('Z', header.z_offset, geometry.z_max, extents[2] as nat),
    )
}

/// The line that opens the slice at depth `z`.
pub open spec fn marker_line(z: nat) -> Seq<char> {
    "Z: "@ + decimal(z)
}

/// One sample as it stands in a row.
pub open spec fn sample_token(volume: VolumeData, index: Seq<usize>) -> Seq<char> {
    volume.value_at(index).fixed_text(10)
}

/// A row: the first `count` samples along the first axis at the place that
/// `index` gives on the other axes, with one space between neighbours.
pub open spec fn row_text(volume: VolumeData, index: Seq<usize>, count: nat) -> Seq<char>
    decreases count,
{
    if count == 0 {
        Seq::empty()
    } else if count == 1 {
        sample_token(volume, index.update(0, 0))
    } else {
        row_text(volume, index, (count - 1) as nat) + seq![' '] + sample_token(
            volume,
            index.update(0, (count - 1) as usize),
        )
    }
}

/// The rows of one slice that share the place of `index` on the axes before
/// `axis`.  The axes from `axis` on, the depth axis left out, are run
/// through with the last one fastest.
pub open spec fn lanes_from(volume: VolumeData, index: Seq<usize>, axis: nat) -> Seq<Seq<char>>
    decreases volume.extents().len() - axis, 1nat, 0nat,
{
    let extents = volume.extents();
    if axis >= extents.len() {
        seq![row_text(volume, index, extents[0] as nat)]
    } else if axis == 2 {
        lanes_from(volume, index, axis + 1)
    } else {
        lanes_upto(volume, index, axis, extents[axis as int] as nat)
    }
}

/// The rows of `lanes_from` for the first `count` places on `axis`.
pub open spec fn lanes_upto(volume: VolumeData, index: Seq<usize>, axis: nat, count: nat) -> Seq<
    Seq<char>,
>
    decreases volume.extents().len() - axis, 0nat, count,
{
    if axis >= volume.extents().len() || count == 0 {
        Seq::empty()
    } else {
        lanes_upto(volume, index, axis, (count - 1) as nat) + lanes_from(
            volume,
            index.update(axis as int, (count - 1) as usize),
            axis + 1,
        )
    }
}

/// The index from which the rows of the slice at depth `z` are counted.
pub open spec fn slice_origin(axes: nat, z: usize) -> Seq<usize> {
    Seq::new(
        axes,
        |axis: int|
            if axis == 2 {
                z
            } else {
                0usize
            },
    )
}

/// The lines of the slice at depth `z`: its marker, then its rows.
pub open spec fn slice_lines(volume: VolumeData, z: usize) -> Seq<Seq<char>> {
    seq![marker_line(z as nat)] + lanes_from(
        volume,
        slice_origin(volume.extents().len(), z),
        1,
    )
}

/// The lines of the first `count` slices.  An empty line stands before each
/// slice but the first.
pub open spec fn slices_lines(volume: VolumeData, count: nat) -> Seq<Seq<char>>
    decreases count,
{
    if count == 0 {
        Seq::empty()
    } else if count == 1 {
        slice_lines(volume, 0)
    } else {
        slices_lines(volume, (count - 1) as nat) + seq![Seq::<char>::empty()] + slice_lines(
            volume,
            (count - 1) as usize,
        )
    }
}

/// All lines of an export, in order.
pub open spec fn export_lines(
    path: Seq<char>,
    options: AcquisitionOptions,
    header: VolumeHeader,
    geometry: Geometry,
    volume: VolumeData,
) -> Seq<Seq<char>> {
    header_lines(path, options, header, geometry, volume.extents()) + seq![separator_line()]
        + slices_lines(volume, volume.extents()[2] as nat)
}

/// The text of an export.  Every line ends in a line feed, but for the
/// separator of a volume without slices, which ends the text as it stands.
pub open spec fn export_text(
    path: Seq<char>,
    options: AcquisitionOptions,
    header: VolumeHeader,
    geometry: Geometry,
    volume: VolumeData,
) -> Seq<char> {
    if volume.extents()[2] == 0 {
        text_of(header_lines(path, options, header, geometry, volume.extents()))
            + separator_line()
    } else {
        text_of(export_lines(path, options, header, geometry, volume))
    }
}

/// A line added to a list adds itself and a line feed to the text.
pub proof fn lemma_text_of_push(lines: Seq<Seq<char>>, line: Seq<char>)
    ensures
        text_of(lines.push(line)) == text_of(lines) + line + seq!['\n'],
{
    assert(lines.push(line).drop_last() =~= lines);
}

/// The text of two lists of lines, one after the other, is the two texts
/// joined.
pub proof fn lemma_text_of_concat(first: Seq<Seq<char>>, second: Seq<Seq<char>>)
    ensures
        text_of(first + second) == text_of(first) + text_of(second),
    decreases second.len(),
{
    if second.len() == 0 {
        assert(first + second =~= first);
        assert(text_of(first) + text_of(second) =~= text_of(first));
    } else {
        lemma_text_of_concat(first, second.drop_last());
        assert((first + second).drop_last() =~= first + second.drop_last());
        assert((first + second).last() == second.last());
        assert(text_of(first) + text_of(second.drop_last()) + second.last() + seq!['\n']
            =~= text_of(first) + (text_of(second.drop_last()) + second.last() + seq!['\n']));
    }
}

/// The text of a single line.
pub proof fn lemma_text_of_single(line: Seq<char>)
    ensures
        text_of(seq![line]) == line + seq!['\n'],
{
    assert(seq![line] =~= Seq::<Seq<char>>::empty().push(line));
    lemma_text_of_push(Seq::empty(), line);
    assert(text_of(Seq::<Seq<char>>::empty()) + line + seq!['\n'] =~= line + seq!['\n']);
}

/// Appends a line feed.
fn end_line(out: &mut String, Ghost(start): Ghost<Seq<char>>, Ghost(lines): Ghost<Seq<Seq<char>>>, Ghost(line): Ghost<Seq<char>>)
    requires
        old(out)@ == start + text_of(lines) + line,
    ensures
        final(out)@ == start + text_of(lines.push(line)),
{
    out.push('\n');
    proof {
        lemma_text_of_push(lines, line);
        assert(out@ =~= start + (text_of(lines) + line + seq!['\n']));
    }
}

/// Appends one line of the grid dimensions, without a line end.
fn push_axis_line(out: &mut String, letter: char, offset: &Real, max: &Real, extent: usize)
    ensures
        final(out)@ == old(out)@ + axis_line(letter, *offset, *max, extent as nat),
{
    out.push(letter);
    out.push(':');
    out.push(' ');
    offset.push_fixed(out, CALIBRATION_PLACES);
    out.push(' ');
    max.push_fixed(out, CALIBRATION_PLACES);
    out.push(' ');
    push_decimal(out, extent as u128);
    proof {
        assert(out@ =~= old(out)@ + axis_line(letter, *offset, *max, extent as nat));
    }
}

/// Appends the header block: ten lines, each with its line end.
pub(crate) fn push_header_block(
    out: &mut String,
    path: &str,
    options: &AcquisitionOptions,
    header: &VolumeHeader,
    geometry: &Geometry,
    shape: &Vec<usize>,
)
    requires
        shape@.len() >= 3,
    ensures
        final(out)@ == old(out)@ + text_of(
            header_lines(path@, *options, *header, *geometry, shape@),
        ),
{
    let ghost start = out@;
    let ghost mut lines = Seq::<Seq<char>>::empty();
    proof {
        assert(start + text_of(lines) =~= start);
    }

    out.append("BESA_SA_IMAGE:2.0");
    end_line(out, Ghost(start), Ghost(lines), Ghost("BESA_SA_IMAGE:2.0"@));
    proof {
        lines = lines.push("BESA_SA_IMAGE:2.0"@);
        assert(out@ + Seq::<char>::empty() =~= out@);
    }

    end_line(out, Ghost(start), Ghost(lines), Ghost(Seq::empty()));
    proof {
        lines = lines.push(Seq::empty());
    }

    let ghost before = out@;
    out.append("Data file:          ");
    out.append(path);
    proof {
        assert(out@ =~= before + ("Data file:          "@ + path@));
    }
    end_line(out, Ghost(start), Ghost(lines), Ghost("Data file:          "@ + path@));
    proof {
        lines = lines.push("Data file:          "@ + path@);
    }

    out.append("Condition:          Correct  Notch filter: 60 Hz");
    end_line(
        out,
        Ghost(start),
        Ghost(lines),
        Ghost("Condition:          Correct  Notch filter: 60 Hz"@),
    );
    proof {
        lines = lines.push("Condition:          Correct  Notch filter: 60 Hz"@);
    }

    options.push_condition(out);
    end_line(out, Ghost(start), Ghost(lines), Ghost(options.condition_text()));
    proof {
        lines = lines.push(options.condition_text());
        assert(out@ + Seq::<char>::empty() =~= out@);
    }

    end_line(out, Ghost(start), Ghost(lines), Ghost(Seq::empty()));
    proof {
        lines = lines.push(Seq::empty());
    }

    out.append("Grid dimensions ([min] [max] [nr of locations]):");
    end_line(
        out,
        Ghost(start),
        Ghost(lines),
        Ghost("Grid dimensions ([min] [max] [nr of locations]):"@),
    );
    proof {
        lines = lines.push("Grid dimensions ([min] [max] [nr of locations]):"@);
    }

    push_axis_line(out, 'X', &header.x_offset, &geometry.x_max, shape[0]);
    end_line(
        out,
        Ghost(start),
        Ghost(lines),
        Ghost(axis_line('X', header.x_offset, geometry.x_max, shape@[0] as nat)),
    );
    proof {
        lines = lines.push(axis_line('X', header.x_offset, geometry.x_max, shape@[0] as nat));
    }

    push_axis_line(out, 'Y', &header.y_offset, &geometry.y_max, shape[1]);
    end_line(
        out,
        Ghost(start),
        Ghost(lines),
        Ghost(axis_line('Y', header.y_offset, geometry.y_max, shape@[1] as nat)),
    );
    proof {
        lines = lines.push(axis_line('Y', header.y_offset, geometry.y_max, shape@[1] as nat));
    }

    push_axis_line(out, 'Z', &header.z_offset, &geometry.z_max, shape[2]);
    end_line(
        out,
        Ghost(start),
        Ghost(lines),
        Ghost(axis_line('Z', header.z_offset, geometry.z_max, shape@[2] as nat)),
    );
    proof {
        lines = lines.push(axis_line('Z', header.z_offset, geometry.z_max, shape@[2] as nat));
        assert(lines == header_lines(path@, *options, *header, *geometry, shape@));
    }
}

/// Appends the separator, without a line end.
pub(crate) fn push_separator(out: &mut String)
    ensures
        final(out)@ == old(out)@ + separator_line(),
{
    let mut i: usize = 0;
    proof {
        assert(old(out)@ + Seq::new(0, |k: int| '=') =~= old(out)@);
    }
    while i < SEPARATOR_WIDTH
        invariant
            i <= SEPARATOR_WIDTH,
            out@ == old(out)@ + Seq::new(i as nat, |k: int| '='),
        decreases SEPARATOR_WIDTH - i,
    {
        out.push('=');
        proof {
            assert((old(out)@ + Seq::new(i as nat, |k: int| '=')).push('=') =~= old(out)@
                + Seq::new((i + 1) as nat, |k: int| '='));
        }
        i = i + 1;
    }
}

/// A copy of `index` with the place on one axis replaced.
fn with_axis(index: &Vec<usize>, axis: usize, place: usize) -> (r: Vec<usize>)
    requires
        axis < index@.len(),
    ensures
        r@ == index@.update(axis as int, place),
{
    let mut r: Vec<usize> = Vec::new();
    let mut i: usize = 0;
    while i < index.len()
        invariant
            i <= index.len(),
            axis < index@.len(),
            r@.len() == i,
            forall|k: int|
                0 <= k < i ==> r@[k] == (if k == axis {
                    place
                } else {
                    index@[k]
                }),
        decreases index.len() - i,
    {
        if i == axis {
            r.push(place);
        } else {
            r.push(index[i]);
        }
        i = i + 1;
    }
    proof {
        assert(r@ =~= index@.update(axis as int, place));
    }
    r
}

/// Appends one row and its line end.
fn push_row(volume: &VolumeData, index: &Vec<usize>, count: usize, out: &mut String)
    requires
        index@.len() == volume.extents().len(),
        index@.len() >= 1,
        count == volume.extents()[0],
        forall|axis: int| 1 <= axis < index@.len() ==> index@[axis] < volume.extents()[axis],
    ensures
        final(out)@ == old(out)@ + row_text(*volume, index@, count as nat) + seq!['\n'],
{
    let mut x: usize = 0;
    let mut cell: Vec<usize> = with_axis(index, 0, 0);
    proof {
        assert(old(out)@ + row_text(*volume, index@, 0) =~= old(out)@);
    }
    while x < count
        invariant
            x <= count,
            index@.len() == volume.extents().len(),
            index@.len() >= 1,
            count == volume.extents()[0],
            forall|axis: int| 1 <= axis < index@.len() ==> index@[axis] < volume.extents()[axis],
            cell@.len() == index@.len(),
            forall|axis: int| 1 <= axis < index@.len() ==> cell@[axis] == index@[axis],
            out@ == old(out)@ + row_text(*volume, index@, x as nat),
        decreases count - x,
    {
        if x > 0 {
            out.push(' ');
        }
        cell.set(0, x);
        proof {
            assert(cell@ =~= index@.update(0, x));
            assert(within(volume.extents(), cell@));
        }
        match volume.sample(&cell) {
            Some(value) => {
                value.push_fixed(out, SAMPLE_PLACES);
            },
            None => {},
        }
        proof {
            let token = sample_token(*volume, index@.update(0, x));
            if x == 0 {
                assert(out@ =~= old(out)@ + token);
            } else {
                assert(out@ =~= old(out)@ + (row_text(*volume, index@, x as nat) + seq![' ']
                    + token));
            }
        }
        x = x + 1;
    }
    out.push('\n');
}

/// Appends the rows of `lanes_from`, each with its line end.
fn push_lanes(
    volume: &VolumeData,
    shape: &Vec<usize>,
    index: &Vec<usize>,
    axis: usize,
    out: &mut String,
)
    requires
        shape@ == volume.extents(),
        shape@.len() >= 3,
        index@.len() == shape@.len(),
        1 <= axis <= shape@.len(),
        index@[2] < shape@[2],
        forall|a: int| 1 <= a < axis ==> index@[a] < shape@[a],
    ensures
        final(out)@ == old(out)@ + text_of(lanes_from(*volume, index@, axis as nat)),
    decreases shape@.len() - axis,
{
    if axis >= shape.len() {
        push_row(volume, index, shape[0], out);
        proof {
            let row = row_text(*volume, index@, shape@[0] as nat);
            lemma_text_of_single(row);
            assert(old(out)@ + row + seq!['\n'] =~= old(out)@ + (row + seq!['\n']));
        }
    } else if axis == 2 {
        push_lanes(volume, shape, index, axis + 1, out);
    } else {
        let extent: usize = shape[axis];
        let mut place: usize = 0;
        proof {
            assert(old(out)@ + text_of(lanes_upto(*volume, index@, axis as nat, 0)) =~= old(
                out,
            )@);
        }
        while place < extent
            invariant
                place <= extent,
                extent == shape@[axis as int],
                shape@ == volume.extents(),
                shape@.len() >= 3,
                index@.len() == shape@.len(),
                1 <= axis < shape.len(),
                axis != 2,
                index@[2] < shape@[2],
                forall|a: int| 1 <= a < axis ==> index@[a] < shape@[a],
                out@ == old(out)@ + text_of(
                    lanes_upto(*volume, index@, axis as nat, place as nat),
                ),
            decreases extent - place,
        {
            let next: Vec<usize> = with_axis(index, axis, place);
            push_lanes(volume, shape, &next, axis + 1, out);
            proof {
                let done = lanes_upto(*volume, index@, axis as nat, place as nat);
                let more = lanes_from(*volume, next@, (axis + 1) as nat);
                lemma_text_of_concat(done, more);
                assert(lanes_upto(*volume, index@, axis as nat, (place + 1) as nat) == done + more);
                assert(old(out)@ + text_of(done) + text_of(more) =~= old(out)@ + (text_of(done)
                    + text_of(more)));
            }
            place = place + 1;
        }
    }
}

/// The index from which the rows of the slice at depth `z` are counted.
fn origin_of_slice(axes: usize, z: usize) -> (r: Vec<usize>)
    ensures
        r@ == slice_origin(axes as nat, z),
{
    let mut r: Vec<usize> = Vec::new();
    let mut axis: usize = 0;
    while axis < axes
        invariant
            axis <= axes,
            r@.len() == axis,
            forall|k: int|
                0 <= k < axis ==> r@[k] == (if k == 2 {
                    z
                } else {
                    0usize
                }),
        decreases axes - axis,
    {
        if axis == 2 {
            r.push(z);
        } else {
            r.push(0);
        }
        axis = axis + 1;
    }
    proof {
        assert(r@ =~= slice_origin(axes as nat, z));
    }
    r
}

/// Appends the slice at depth `z`: its marker and its rows, each with its
/// line end.
pub(crate) fn push_slice(volume: &VolumeData, shape: &Vec<usize>, z: usize, out: &mut String)
    requires
        shape@ == volume.extents(),
        shape@.len() >= 3,
        z < shape@[2],
    ensures
        final(out)@ == old(out)@ + text_of(slice_lines(*volume, z)),
{
    out.append("Z: ");
    push_decimal(out, z as u128);
    out.push('\n');
    let origin: Vec<usize> = origin_of_slice(shape.len(), z);
    let ghost marked = out@;
    push_lanes(volume, shape, &origin, 1, out);
    proof {
        let marker = marker_line(z as nat);
        let rows = lanes_from(*volume, origin@, 1);
        lemma_text_of_single(marker);
        lemma_text_of_concat(seq![marker], rows);
        assert(marked =~= old(out)@ + (marker + seq!['\n']));
        assert(out@ =~= old(out)@ + (text_of(seq![marker]) + text_of(rows)));
    }
}

} // verus!
