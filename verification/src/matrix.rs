use vstd::prelude::*;

verus! {

/// A dense grid of scores in an `ndarray::Array2`. What it holds is known
/// only through `grid_rows` and the three functions below.
#[verifier::external_body]
pub struct ScoreMatrix {
    cells: ndarray::Array2<i64>,
}

/// The cells of a grid, row by row.
pub uninterp spec fn grid_rows(m: ScoreMatrix) -> Seq<Seq<i64>>;

/// The grid has `rows` rows of `cols` cells each.
pub open spec fn has_shape(m: ScoreMatrix, rows: int, cols: int) -> bool {
    &&& grid_rows(m).len() == rows
    &&& forall|i: int| 0 <= i < rows ==> (#[trigger] grid_rows(m)[i]).len() == cols
}

/// `Array2::zeros` of ndarray on the shape `(rows, cols)`: a grid of that
/// shape with 0 in every cell. It panics where the product of the side
/// lengths that are not 0 exceeds `isize::MAX`, which the precondition
/// excludes.
#[verifier::external_body]
pub(crate) fn zeros(rows: usize, cols: usize) -> (m: ScoreMatrix)
    requires
        rows <= isize::MAX,
        cols <= isize::MAX,
        rows * cols <= isize::MAX,
    ensures
        grid_rows(m) == Seq::new(rows as nat, |i: int| Seq::new(cols as nat, |j: int| 0i64)),
{
    ScoreMatrix { cells: ndarray::Array2::zeros((rows, cols)) }
}

/// Reading `m[[i, j]]` of ndarray: the cell in row `i`, column `j`. It
/// panics outside the grid, which the precondition excludes.
#[verifier::external_body]
pub(crate) fn get(m: &ScoreMatrix, i: usize, j: usize) -> (v: i64)
    requires
        i < grid_rows(*m).len(),
        j < grid_rows(*m)[i as int].len(),
    ensures
        v == grid_rows(*m)[i as int][j as int],
{
    m.cells[[i, j]]
}

/// Writing `m[[i, j]]` of ndarray: the cell in row `i`, column `j` becomes
/// `v` and no other cell changes. It panics outside the grid, which the
/// precondition excludes.
#[verifier::external_body]
pub(crate) fn set(m: &mut ScoreMatrix, i: usize, j: usize, v: i64)
    requires
        i < grid_rows(*old(m)).len(),
        j < grid_rows(*old(m))[i as int].len(),
    ensures
        grid_rows(*final(m)) == grid_rows(*old(m)).update(
            i as int,
            grid_rows(*old(m))[i as int].update(j as int, v),
        ),
{
    m.cells[[i, j]] = v;
}

} // verus!
