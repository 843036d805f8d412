//! The exporter: cross-checks the two sources of the grid extents and
//! renders the whole text.

use crate::error::{ExportError, FormatFault};
use crate::layout::{
    export_lines, export_text, header_lines, lemma_text_of_concat, lemma_text_of_push,
    push_header_block, push_separator, push_slice, separator_line, slice_lines, slices_lines,
    text_of,
};
use crate::settings::{AcquisitionOptions, Geometry};
use crate::volume::{VolumeData, VolumeHeader};
use vstd::prelude::*;
use vstd::string::StringExecFns;

verus! {

/// The first axis at or after `from` on which the declared and the realized
/// extent differ, or the number of axes if there is none.
pub open spec fn first_mismatch(declared: Seq<u64>, realized: Seq<usize>, from: int) -> int
    decreases realized.len() - from,
{
    if from < 0 || from >= realized.len() || from >= declared.len() {
        realized.len() as int
    } else if declared[from] != realized[from] {
        from
    } else {
        first_mismatch(declared, realized, from + 1)
    }
}

/// Whether header and sample grid agree on the shape of the volume.
pub open spec fn extents_agree(declared: Seq<u64>, realized: Seq<usize>) -> bool {
    &&& declared.len() == realized.len()
    &&& forall|axis: int| 0 <= axis < realized.len() ==> declared[axis] == realized[axis]
}

/// What is structurally wrong with a volume whose header declares one shape
/// and whose sample grid has another, if anything.  The realized shape is
/// the one that is exported; the declared one must confirm it.
pub open spec fn structural_fault(declared: Seq<u64>, realized: Seq<usize>) -> Option<
    FormatFault,
> {
    let axis = first_mismatch(declared, realized, 0);
    if realized.len() < 3 {
        Some(FormatFault::TooFewAxes { found: realized.len() as usize })
    } else if declared.len() != realized.len() {
        Some(
            FormatFault::AxisCount {
                declared_axes: declared.len() as usize,
                realized_axes: realized.len() as usize,
            },
        )
    } else if axis < realized.len() {
        Some(
            FormatFault::Extent {
                axis: axis as usize,
                declared: declared[axis],
                realized: realized[axis],
            },
        )
    } else {
        None
    }
}

/// `first_mismatch` finds the least axis of disagreement.
pub proof fn lemma_first_mismatch(declared: Seq<u64>, realized: Seq<usize>, from: int)
    requires
        declared.len() == realized.len(),
        0 <= from <= realized.len(),
    ensures
        from <= first_mismatch(declared, realized, from) <= realized.len(),
        forall|axis: int|
            from <= axis < first_mismatch(declared, realized, from) ==> declared[axis]
                == realized[axis],
        first_mismatch(declared, realized, from) < realized.len() ==> declared[first_mismatch(
            declared,
            realized,
            from,
        )] != realized[first_mismatch(declared, realized, from)],
    decreases realized.len() - from,
{
    if from < realized.len() && declared[from] == realized[from] {
        lemma_first_mismatch(declared, realized, from + 1);
    }
}

/// A volume is exported exactly when it has a depth axis and header and
/// sample grid agree on every extent.
pub proof fn lemma_fault_free(declared: Seq<u64>, realized: Seq<usize>)
    ensures
        structural_fault(declared, realized) is None <==> (realized.len() >= 3 && extents_agree(
            declared,
            realized,
        )),
{
    if declared.len() == realized.len() {
        lemma_first_mismatch(declared, realized, 0);
    }
}

/// Cross-checks the realized shape against the declared one.
pub fn check_structure(declared: &Vec<u64>, realized: &Vec<usize>) -> (r: Result<(), FormatFault>)
    ensures
        match r {
            Ok(_) => structural_fault(declared@, realized@) is None,
            Err(fault) => structural_fault(declared@, realized@) == Some(fault),
        },
{
    if realized.len() < 3 {
        return Err(FormatFault::TooFewAxes { found: realized.len() });
    }
    if declared.len() != realized.len() {
        return Err(
            FormatFault::AxisCount { declared_axes: declared.len(), realized_axes: realized.len() },
        );
    }
    let mut axis: usize = 0;
    while axis < realized.len()
        invariant
            axis <= realized.len(),
            realized.len() >= 3,
            declared.len() == realized.len(),
            first_mismatch(declared@, realized@, 0) == first_mismatch(
                declared@,
                realized@,
                axis as int,
            ),
        decreases realized.len() - axis,
    {
        if declared[axis] != realized[axis] as u64 {
            return Err(
                FormatFault::Extent { axis, declared: declared[axis], realized: realized[axis] },
            );
        }
        axis = axis + 1;
    }
    Ok(())
}

/// Renders volumes with one set of acquisition parameters and one display
/// geometry.
#[derive(Clone, Copy, Debug)]
pub struct GridExporter {
    pub options: AcquisitionOptions,
    pub geometry: Geometry,
}

impl GridExporter {
    /// An exporter for the given parameters and geometry.
    pub fn new(options: AcquisitionOptions, geometry: Geometry) -> (r: GridExporter)
        ensures
            r.options == options,
            r.geometry == geometry,
    {
        GridExporter { options, geometry }
    }

    /// The text that `export` gives for a volume that passes the cross-check.
    pub open spec fn text(self, header: VolumeHeader, volume: VolumeData, path: Seq<char>) -> Seq<
        char,
    > {
        export_text(path, self.options, header, self.geometry, volume)
    }

    /// Renders the export of a volume read from `input_path`.
    ///
    /// The shape of the sample grid decides what is written.  The header must
    /// declare the same shape, and there must be a depth axis; else nothing
    /// is rendered and the fault is reported with the path.
    pub fn export(&self, header: &VolumeHeader, volume: &VolumeData, input_path: &str) -> (r:
        Result<String, ExportError>)
        ensures
            match r {
                Ok(text) => {
                    &&& structural_fault(header.extents@, volume.extents()) is None
                    &&& text@ == self.text(*header, *volume, input_path@)
                },
                Err(error) => {
                    &&& error matches ExportError::Format { path, fault }
                    &&& path@ == input_path@
                    &&& structural_fault(header.extents@, volume.extents()) == Some(fault)
                },
            },
    {
        let shape: Vec<usize> = volume.shape();
        match check_structure(&header.extents, &shape) {
            Err(fault) => {
                return Err(ExportError::Format { path: String::from_str(input_path), fault });
            },
            Ok(_) => {},
        }
        let mut out: String = String::new();
        push_header_block(&mut out, input_path, &self.options, header, &self.geometry, &shape);
        push_separator(&mut out);
        let ghost head = header_lines(
            input_path@,
            self.options,
            *header,
            self.geometry,
            volume.extents(),
        );
        let ghost top = head + seq![separator_line()];
        proof {
            assert(out@ =~= text_of(head) + separator_line());
        }
        let depth: usize = shape[2];
        let mut z: usize = 0;
        while z < depth
            invariant
                z <= depth,
                depth == shape@[2],
                shape@ == volume.extents(),
                shape@.len() >= 3,
                top == head + seq![separator_line()],
                z == 0 ==> out@ == text_of(head) + separator_line(),
                z > 0 ==> out@ == text_of(top + slices_lines(*volume, z as nat)),
            decreases depth - z,
        {
            out.push('\n');
            let ghost opened = out@;
            push_slice(volume, &shape, z, &mut out);
            proof {
                let slice = slice_lines(*volume, z);
                if z == 0 {
                    lemma_text_of_push(head, separator_line());
                    assert(head.push(separator_line()) =~= top);
                    assert(opened =~= text_of(top));
                    lemma_text_of_concat(top, slice);
                    assert(slices_lines(*volume, 1) == slice);
                } else {
                    let done = top + slices_lines(*volume, z as nat);
                    let blank = Seq::<char>::empty();
                    lemma_text_of_push(done, blank);
                    assert(opened =~= text_of(done) + blank + seq!['\n']);
                    lemma_text_of_concat(done.push(blank), slice);
                    assert(slices_lines(*volume, (z + 1) as nat) == slices_lines(
                        *volume,
                        z as nat,
                    ) + seq![blank] + slice);
                    assert(done.push(blank) + slice =~= top + slices_lines(
                        *volume,
                        (z + 1) as nat,
                    ));
                }
            }
            z = z + 1;
        }
        proof {
            if depth > 0 {
                assert(top + slices_lines(*volume, depth as nat) =~= export_lines(
                    input_path@,
                    self.options,
                    *header,
                    self.geometry,
                    *volume,
                ));
            }
        }
        Ok(out)
    }
}

} // verus!
