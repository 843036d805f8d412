//! The input volume: header calibration and the dense grid of samples.

use crate::error::FormatFault;
use crate::number::Real;
use vstd::arithmetic::div_mod::*;
use vstd::arithmetic::mul::*;
use vstd::prelude::*;

verus! {

/// The floating-point width at which the samples of a volume were realized.
#[derive(Clone, Copy, Debug, PartialEq, Eq, Structural)]
pub enum SampleWidth {
    /// 32-bit binary floating point.
    Single,
    /// 64-bit binary floating point.
    Double,
}

/// A dense n-dimensional array of sample encodings: an `ndarray::ArrayD<u64>`.
/// The array is opaque to the verifier.  What it holds goes by the names
/// `grid_extents` and `grid_cells`, and only the three functions below that
/// call into `ndarray` say anything of them.
#[verifier::external_body]
pub struct SampleGrid {
    cells: ndarray::ArrayD<u64>,
}

/// The length of each axis of the array in a grid, in order.
pub uninterp spec fn grid_extents(g: SampleGrid) -> Seq<usize>;

/// The element of the array in a grid at each index within its extents.
pub uninterp spec fn grid_cells(g: SampleGrid) -> Map<Seq<usize>, u64>;

/// The product of all extents: the number of cells.
pub open spec fn extent_product(extents: Seq<usize>) -> nat
    decreases extents.len(),
{
    if extents.len() == 0 {
        1
    } else {
        extent_product(extents.drop_last()) * extents.last() as nat
    }
}

/// The product of the extents that are not zero.
pub open spec fn nonzero_extent_product(extents: Seq<usize>) -> nat
    decreases extents.len(),
{
    if extents.len() == 0 {
        1
    } else if extents.last() == 0 {
        nonzero_extent_product(extents.drop_last())
    } else {
        nonzero_extent_product(extents.drop_last()) * extents.last() as nat
    }
}

/// Whether `index` names a cell of a grid with these extents.
pub open spec fn within(extents: Seq<usize>, index: Seq<usize>) -> bool {
    &&& index.len() == extents.len()
    &&& forall|axis: int| 0 <= axis < index.len() ==> index[axis] < extents[axis]
}

/// The position of a cell in a flat list that runs through the first axis
/// fastest.
pub open spec fn column_major_offset(extents: Seq<usize>, index: Seq<usize>) -> nat
    decreases extents.len(),
{
    if extents.len() == 0 || index.len() == 0 {
        0
    } else {
        index[0] as nat + extents[0] as nat * column_major_offset(
            extents.drop_first(),
            index.drop_first(),
        )
    }
}

/// The error by which `ndarray` refuses a shape.
#[verifier::external_type_specification]
#[verifier::external_body]
pub struct ExShapeError(ndarray::ShapeError);

/// `ndarray::ArrayD::from_shape_vec` with a first-axis-fastest shape.  It
/// succeeds exactly when the number of cells is the product of the extents
/// and the product of the non-zero extents does not exceed `isize::MAX`;
/// the array then has these extents, and its cell at an index is the element
/// at that index's column-major position.
#[verifier::external_body]
fn grid_from_cells(extents: &Vec<usize>, cells: Vec<u64>) -> (r: Result<
    SampleGrid,
    ndarray::ShapeError,
>)
    ensures
        r.is_ok() <==> (extent_product(extents@) == cells@.len() && nonzero_extent_product(
            extents@,
        ) <= isize::MAX),
        r matches Ok(g) ==> grid_extents(g) == extents@,
        r matches Ok(g) ==> forall|index: Seq<usize>| #[trigger]
            within(extents@, index) ==> grid_cells(g)[index] == cells@[column_major_offset(
                extents@,
                index,
            ) as int],
{
    let shape = ndarray::ShapeBuilder::f(ndarray::IxDyn(extents.as_slice()));
    match ndarray::ArrayD::from_shape_vec(shape, cells) {
        Ok(cells) => Ok(SampleGrid { cells }),
        Err(refusal) => Err(refusal),
    }
}

/// `shape` of `ndarray`: the length of each axis, in order.
#[verifier::external_body]
fn grid_shape(g: &SampleGrid) -> (r: Vec<usize>)
    ensures
        r@ == grid_extents(*g),
{
    g.cells.shape().to_vec()
}

/// `get` of `ndarray` with a slice as index: the cell at the index, or
/// nothing when the index has the wrong number of axes or leaves the grid on
/// one of them.
#[verifier::external_body]
fn grid_get(g: &SampleGrid, index: &Vec<usize>) -> (r: Option<u64>)
    ensures
        r.is_some() <==> within(grid_extents(*g), index@),
        r matches Some(bits) ==> bits == grid_cells(*g)[index@],
{
    g.cells.get(index.as_slice()).copied()
}

/// The value that a sample encoding stands for at a given width.  At single
/// width the low 32 bits hold the encoding.
pub open spec fn sample_value(width: SampleWidth, bits: u64) -> Real {
    match width {
        SampleWidth::Single => Real::single((bits % 0x1_0000_0000) as u32),
        SampleWidth::Double => Real::double(bits),
    }
}

/// Decodes one sample encoding.
pub fn decode_sample(width: SampleWidth, bits: u64) -> (r: Real)
    ensures
        r == sample_value(width, bits),
{
    match width {
        SampleWidth::Single => Real::from_single_bits((bits % 0x1_0000_0000) as u32),
        SampleWidth::Double => Real::from_double_bits(bits),
    }
}

/// What is wrong with a list of cells for a grid of the given extents, if
/// anything.
pub open spec fn cells_fault(extents: Seq<usize>, count: nat) -> Option<FormatFault> {
    if nonzero_extent_product(extents) > isize::MAX {
        Some(FormatFault::Oversized)
    } else if extent_product(extents) != count {
        Some(
            FormatFault::CellCount {
                expected: extent_product(extents) as usize,
                found: count as usize,
            },
        )
    } else {
        None
    }
}

/// Calibration and declared shape of a volume, as its file states them.
#[derive(Debug)]
pub struct VolumeHeader {
    /// Constant term of the index-to-world map along the first axis.
    pub x_offset: Real,
    /// Constant term of the index-to-world map along the second axis.
    pub y_offset: Real,
    /// Constant term of the index-to-world map along the depth axis.
    pub z_offset: Real,
    /// The length that the file declares for each axis.
    pub extents: Vec<u64>,
    /// The file's code for the datatype of its samples.
    pub datatype: i16,
}

/// The samples of a volume, realized at one floating-point width.
pub struct VolumeData {
    pub grid: SampleGrid,
    pub width: SampleWidth,
}

impl VolumeData {
    /// The realized length of each axis.
    pub open spec fn extents(&self) -> Seq<usize> {
        grid_extents(self.grid)
    }

    /// The value of the sample at `index`.
    pub open spec fn value_at(&self, index: Seq<usize>) -> Real {
        sample_value(self.width, grid_cells(self.grid)[index])
    }

    /// Builds a volume from its extents and its sample encodings, listed with
    /// the first axis running fastest.
    pub fn from_cells(extents: Vec<usize>, cells: Vec<u64>, width: SampleWidth) -> (r: Result<
        VolumeData,
        FormatFault,
    >)
        ensures
            match r {
                Ok(v) => {
                    &&& cells_fault(extents@, cells@.len()) is None
                    &&& v.extents() == extents@
                    &&& v.width == width
                    &&& forall|index: Seq<usize>| #[trigger]
                        within(extents@, index) ==> v.value_at(index) == sample_value(
                            width,
                            cells@[column_major_offset(extents@, index) as int],
                        )
                },
                Err(fault) => cells_fault(extents@, cells@.len()) == Some(fault),
            },
    {
        let limit: usize = isize::MAX as usize;
        let mut product: usize = 1;
        let mut empty: bool = false;
        let mut axis: usize = 0;
        proof {
            assert(extents@.subrange(0, 0) =~= Seq::<usize>::empty());
        }
        while axis < extents.len()
            invariant
                axis <= extents.len(),
                limit == isize::MAX,
                product == nonzero_extent_product(extents@.subrange(0, axis as int)),
                1 <= product <= limit,
                extent_product(extents@.subrange(0, axis as int)) == (if empty {
                    0
                } else {
                    product as nat
                }),
            decreases extents.len() - axis,
        {
            let extent: usize = extents[axis];
            let ghost before = extents@.subrange(0, axis as int);
            let ghost after = extents@.subrange(0, axis + 1);
            proof {
                assert(after.drop_last() =~= before);
                assert(after.last() == extent);
                assert(0 * extent == 0);
            }
            if extent == 0 {
                empty = true;
            } else {
                if product > limit / extent {
                    proof {
                        let p = product as int;
                        let e = extent as int;
                        let l = limit as int;
                        lemma_fundamental_div_mod(l, e);
                        lemma_mod_bound(l, e);
                        lemma_mul_inequality(l / e + 1, p, e);
                        assert((l / e + 1) * e == e * (l / e) + e) by (nonlinear_arith);
                        assert(p * e > l);
                        lemma_nonzero_product_grows(after, extents@);
                    }
                    return Err(FormatFault::Oversized);
                }
                proof {
                    let p = product as int;
                    let e = extent as int;
                    let l = limit as int;
                    lemma_fundamental_div_mod(l, e);
                    lemma_mod_bound(l, e);
                    lemma_mul_inequality(p, l / e, e);
                    assert((l / e) * e == e * (l / e)) by (nonlinear_arith);
                    assert(p * e <= l);
                    assert(p * e >= 1) by (nonlinear_arith)
                        requires
                            p >= 1,
                            e >= 1,
                    ;
                }
                product = product * extent;
            }
            axis = axis + 1;
        }
        proof {
            assert(extents@.subrange(0, axis as int) =~= extents@);
        }
        let expected: usize = if empty {
            0
        } else {
            product
        };
        if expected != cells.len() {
            return Err(FormatFault::CellCount { expected, found: cells.len() });
        }
        let ghost listed = cells@;
        match grid_from_cells(&extents, cells) {
            Ok(grid) => {
                let v = VolumeData { grid, width };
                proof {
                    assert forall|index: Seq<usize>| #[trigger]
                        within(extents@, index) implies v.value_at(index) == sample_value(
                        width,
                        listed[column_major_offset(extents@, index) as int],
                    ) by {}
                }
                Ok(v)
            },
            Err(_) => Err(FormatFault::Oversized),
        }
    }

    /// The realized length of each axis.
    pub fn shape(&self) -> (r: Vec<usize>)
        ensures
            r@ == self.extents(),
    {
        grid_shape(&self.grid)
    }

    /// The value of the sample at `index`, or nothing when `index` does not
    /// name a cell.
    pub fn sample(&self, index: &Vec<usize>) -> (r: Option<Real>)
        ensures
            r.is_some() <==> within(self.extents(), index@),
            r matches Some(value) ==> value == self.value_at(index@),
    {
        match grid_get(&self.grid, index) {
            Some(bits) => Some(decode_sample(self.width, bits)),
            None => None,
        }
    }
}

/// A longer list of extents has no smaller product of its non-zero extents.
pub proof fn lemma_nonzero_product_grows(head: Seq<usize>, whole: Seq<usize>)
    requires
        head.len() <= whole.len(),
        head =~= whole.subrange(0, head.len() as int),
    ensures
        nonzero_extent_product(head) <= nonzero_extent_product(whole),
        nonzero_extent_product(head) >= 1,
    decreases whole.len(),
{
    if head.len() == whole.len() {
        assert(head =~= whole);
        lemma_nonzero_product_positive(head);
    } else {
        let shorter = whole.drop_last();
        assert(head =~= shorter.subrange(0, head.len() as int));
        lemma_nonzero_product_grows(head, shorter);
        let p = nonzero_extent_product(shorter);
        let e = whole.last() as nat;
        if e != 0 {
            assert(p * e >= p) by (nonlinear_arith)
                requires
                    e >= 1,
            ;
        }
    }
}

/// The product of the non-zero extents is never zero.
pub proof fn lemma_nonzero_product_positive(extents: Seq<usize>)
    ensures
        nonzero_extent_product(extents) >= 1,
    decreases extents.len(),
{
    if extents.len() > 0 {
        lemma_nonzero_product_positive(extents.drop_last());
        let p = nonzero_extent_product(extents.drop_last());
        let e = extents.last() as nat;
        if e != 0 {
            assert(p * e >= 1) by (nonlinear_arith)
                requires
                    p >= 1,
                    e >= 1,
            ;
        }
    }
}

} // verus!
