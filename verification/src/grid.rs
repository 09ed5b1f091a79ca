use vstd::prelude::*;
use nalgebra::DMatrix;
use crate::pixel_type::Pixel;

verus! {

/// The pixel storage of an image: a `nalgebra::DMatrix` with one row per
/// image row and one column per image column.
///
/// The verifier does not look inside the matrix. What it holds is named by
/// [`grid_cells`], and each function below states what one matrix operation
/// does to those contents; these statements are taken from the matrix
/// library's source and are not proved here.
#[verifier::external_body]
pub struct PixelGrid {
    inner: DMatrix<Pixel>,
}

/// The contents of a grid: `grid_cells(g)[r][c]` is the entry at row `r`,
/// column `c`.
pub uninterp spec fn grid_cells(g: PixelGrid) -> Seq<Seq<Pixel>>;

/// `DMatrix::from_element`: a matrix of `nrows` rows and `ncols` columns
/// whose entries all equal `fill`.
///
/// The matrix library multiplies `nrows` by `ncols` and collects that many
/// copies into a vector. The precondition keeps the product from overflowing
/// and the vector below the largest size that a vector may have.
#[verifier::external_body]
pub(crate) fn grid_filled(nrows: usize, ncols: usize, fill: Pixel) -> (g: PixelGrid)
    requires
        nrows * ncols <= crate::my_image::MAX_PIXELS,
    ensures
        grid_cells(g) == Seq::new(nrows as nat, |r: int| Seq::new(ncols as nat, |c: int| fill)),
{
    PixelGrid { inner: DMatrix::from_element(nrows, ncols, fill) }
}

/// Indexing a matrix by `(row, col)`: the entry at that place. The index
/// must lie inside the matrix, where the library would otherwise panic.
#[verifier::external_body]
pub(crate) fn grid_get(g: &PixelGrid, row: usize, col: usize) -> (p: Pixel)
    requires
        row < grid_cells(*g).len(),
        col < grid_cells(*g)[row as int].len(),
    ensures
        p == grid_cells(*g)[row as int][col as int],
{
    g.inner[(row, col)]
}

/// Assigning through a matrix index `(row, col)`: that entry becomes `p` and
/// every other entry stays. The index must lie inside the matrix; with that
/// the assignment cannot panic, which `no_unwind` records.
#[verifier::external_body]
pub(crate) fn grid_set(g: &mut PixelGrid, row: usize, col: usize, p: Pixel)
    requires
        row < grid_cells(*old(g)).len(),
        col < grid_cells(*old(g))[row as int].len(),
    ensures
        grid_cells(*final(g)) == grid_cells(*old(g)).update(
            row as int,
            grid_cells(*old(g))[row as int].update(col as int, p),
        ),
    no_unwind
{
    g.inner[(row, col)] = p;
}

} // verus!
