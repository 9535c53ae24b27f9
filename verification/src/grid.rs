//! Tables of integers, held in `ndarray` arrays.

use vstd::prelude::*;

verus! {

/// The `rows` rows of `cols` cells each that `cells` holds, row after row.
pub open spec fn rows_of<T>(cells: Seq<T>, rows: nat, cols: nat) -> Seq<Seq<T>> {
    Seq::new(rows, |r: int| cells.subrange(r * cols, r * cols + cols))
}

/// Every row of `rows` is `width` long.
pub open spec fn rectangular<T>(rows: Seq<Seq<T>>, width: nat) -> bool {
    forall|r: int| 0 <= r < rows.len() ==> (#[trigger] rows[r]).len() == width
}

/// The shapes with `cells` cells that an array can have: with no cell in it,
/// neither side may exceed what an `isize` can hold.
pub open spec fn table_shape(rows: nat, cols: nat, cells: nat) -> bool {
    &&& rows * cols == cells
    &&& cells > 0 || (rows <= isize::MAX && cols <= isize::MAX)
}

/// A row lies within the table.
pub proof fn lemma_row_in_table(r: int, rows: int, cols: int)
    requires
        0 <= r < rows,
        0 <= cols,
    ensures
        0 <= r * cols,
        r * cols + cols <= rows * cols,
{
    assert(r * cols + cols == (r + 1) * cols) by (nonlinear_arith);
    assert((r + 1) * cols <= rows * cols) by (nonlinear_arith)
        requires
            r + 1 <= rows,
            0 <= cols,
    ;
    assert(0 <= r * cols) by (nonlinear_arith)
        requires
            0 <= r,
            0 <= cols,
    ;
}

/// The contents of a vector of rows.
pub open spec fn row_views<T>(rows: Seq<Vec<T>>) -> Seq<Seq<T>> {
    rows.map_values(|row: Vec<T>| row@)
}

/// The cells of `rows`, row after row.
pub fn flatten<T: Copy>(rows: &Vec<Vec<T>>, cols: usize) -> (r: Vec<T>)
    requires
        rectangular(row_views(rows@), cols as nat),
    ensures
        r@.len() == rows@.len() * cols,
        rows_of(r@, rows@.len(), cols as nat) == row_views(rows@),
{
    let mut out: Vec<T> = Vec::new();
    let n: usize = rows.len();
    for i in 0..n
        invariant
            n == rows@.len(),
            rectangular(row_views(rows@), cols as nat),
            out@.len() == i * cols,
            forall|r: int|
                0 <= r < i ==> 0 <= r * cols && #[trigger] out@.subrange(r * cols, r * cols + cols)
                    == row_views(rows@)[r],
    {
        let ghost before = out@;
        assert(row_views(rows@)[i as int].len() == cols);
        for j in 0..cols
            invariant
                i < n,
                n == rows@.len(),
                rows@[i as int]@.len() == cols,
                before.len() == i * cols,
                out@ == before + rows@[i as int]@.take(j as int),
        {
            out.push(rows[i][j]);
            assert(out@ =~= before + rows@[i as int]@.take(j + 1));
        }
        assert((i + 1) * cols == i * cols + cols) by (nonlinear_arith);
        assert(rows@[i as int]@.take(cols as int) =~= rows@[i as int]@);
        assert forall|r: int| 0 <= r < i + 1 implies 0 <= r * cols && #[trigger] out@.subrange(
            r * cols,
            r * cols + cols,
        ) == row_views(rows@)[r] by {
            lemma_row_in_table(r, i + 1, cols as int);
            if r < i {
                lemma_row_in_table(r, i as int, cols as int);
                assert(before.subrange(r * cols, r * cols + cols) == row_views(rows@)[r]);
                assert(out@.subrange(r * cols, r * cols + cols) =~= before.subrange(
                    r * cols,
                    r * cols + cols,
                ));
            } else {
                assert(out@.subrange(r * cols, r * cols + cols) =~= rows@[i as int]@);
            }
        }
    }
    assert(rows_of(out@, rows@.len(), cols as nat) =~= row_views(rows@));
    out
}

/// Codec codes, one row per codebook and one column per frame.
#[verifier::external_body]
pub struct CodeGrid {
    cells: ndarray::Array2<i64>,
}

/// The rows of a code grid.
pub uninterp spec fn code_rows(g: CodeGrid) -> Seq<Seq<i64>>;

/// The number of columns of a code grid.
pub uninterp spec fn code_width(g: CodeGrid) -> nat;

/// `ndarray::Array2::from_shape_vec` lays the vector out row by row. It
/// succeeds exactly where the vector has one element per cell and the product
/// of the non-zero sides fits in an `isize`, as it does for the shape of any
/// vector that exists.
#[verifier::external_body]
fn code_grid_from_vec(rows: usize, cols: usize, cells: Vec<i64>) -> (r: Option<CodeGrid>)
    ensures
        r is Some <==> table_shape(rows as nat, cols as nat, cells@.len()),
        r matches Some(g) ==> code_rows(g) == rows_of(cells@, rows as nat, cols as nat)
            && code_width(g) == cols,
{
    match ndarray::Array2::from_shape_vec((rows, cols), cells) {
        Ok(cells) => Some(CodeGrid { cells }),
        Err(_) => None,
    }
}

/// `ndarray::ArrayBase::dim` gives the two sides of the array. The product of
/// the non-zero sides of an array never exceeds `isize::MAX`.
#[verifier::external_body]
fn code_grid_dim(g: &CodeGrid) -> (r: (usize, usize))
    ensures
        r.0 == code_rows(*g).len(),
        r.1 == code_width(*g),
        rectangular(code_rows(*g), r.1 as nat),
        r.0 <= isize::MAX,
        r.1 <= isize::MAX,
        r.0 * r.1 <= isize::MAX,
{
    g.cells.dim()
}

/// Indexing an `ndarray` array with a row and a column reads that cell; out of
/// bounds it panics.
#[verifier::external_body]
fn code_grid_at(g: &CodeGrid, row: usize, col: usize) -> (r: i64)
    requires
        row < code_rows(*g).len(),
        col < code_width(*g),
    ensures
        r == code_rows(*g)[row as int][col as int],
{
    g.cells[[row, col]]
}

impl CodeGrid {
    pub open spec fn rows(self) -> Seq<Seq<i64>> {
        code_rows(self)
    }

    pub open spec fn width(self) -> nat {
        code_width(self)
    }

    /// The grid of `rows` rows and `cols` columns that `cells` fills row by
    /// row, if `cells` has that shape.
    pub fn from_cells(rows: usize, cols: usize, cells: Vec<i64>) -> (r: Option<CodeGrid>)
        ensures
            r is Some <==> table_shape(rows as nat, cols as nat, cells@.len()),
            r matches Some(g) ==> g.rows() == rows_of(cells@, rows as nat, cols as nat)
                && g.width() == cols,
    {
        code_grid_from_vec(rows, cols, cells)
    }

    /// The grid that consists of `rows`, each `cols` long.
    pub fn from_rows(rows: &Vec<Vec<i64>>, cols: usize) -> (r: CodeGrid)
        requires
            rectangular(row_views(rows@), cols as nat),
            rows@.len() * cols > 0 || (rows@.len() <= isize::MAX && cols <= isize::MAX),
        ensures
            r.rows() == row_views(rows@),
            r.width() == cols,
    {
        code_grid_from_vec(rows.len(), cols, flatten(rows, cols)).unwrap()
    }

    /// The number of rows and of columns.
    pub fn dim(&self) -> (r: (usize, usize))
        ensures
            r.0 == self.rows().len(),
            r.1 == self.width(),
            rectangular(self.rows(), self.width()),
            r.0 <= isize::MAX,
            r.1 <= isize::MAX,
            r.0 * r.1 <= isize::MAX,
    {
        code_grid_dim(self)
    }

    pub fn at(&self, row: usize, col: usize) -> (r: i64)
        requires
            row < self.rows().len(),
            col < self.width(),
        ensures
            r == self.rows()[row as int][col as int],
    {
        code_grid_at(self, row, col)
    }

    /// One row, from left to right.
    pub fn row(&self, row: usize) -> (r: Vec<i64>)
        requires
            row < self.rows().len(),
        ensures
            r@ == self.rows()[row as int],
    {
        let cols: usize = self.dim().1;
        let mut out: Vec<i64> = Vec::new();
        for c in 0..cols
            invariant
                row < self.rows().len(),
                cols == self.width(),
                self.rows()[row as int].len() == cols,
                out@ == self.rows()[row as int].take(c as int),
        {
            out.push(self.at(row, c));
            assert(out@ =~= self.rows()[row as int].take(c + 1));
        }
        assert(out@ =~= self.rows()[row as int]);
        out
    }
}

/// Unsigned codes as they are stored on disk.
#[verifier::external_body]
pub struct WordGrid {
    cells: ndarray::Array2<u16>,
}

/// The rows of a word grid.
pub uninterp spec fn word_rows(g: WordGrid) -> Seq<Seq<u16>>;

/// The number of columns of a word grid.
pub uninterp spec fn word_width(g: WordGrid) -> nat;

/// `ndarray::Array2::from_shape_vec`, as for codes.
#[verifier::external_body]
fn word_grid_from_vec(rows: usize, cols: usize, cells: Vec<u16>) -> (r: Option<WordGrid>)
    ensures
        r is Some <==> table_shape(rows as nat, cols as nat, cells@.len()),
        r matches Some(g) ==> word_rows(g) == rows_of(cells@, rows as nat, cols as nat)
            && word_width(g) == cols,
{
    match ndarray::Array2::from_shape_vec((rows, cols), cells) {
        Ok(cells) => Some(WordGrid { cells }),
        Err(_) => None,
    }
}

/// `ndarray::ArrayBase::dim`, as for codes.
#[verifier::external_body]
fn word_grid_dim(g: &WordGrid) -> (r: (usize, usize))
    ensures
        r.0 == word_rows(*g).len(),
        r.1 == word_width(*g),
        rectangular(word_rows(*g), r.1 as nat),
        r.0 <= isize::MAX,
        r.1 <= isize::MAX,
{
    g.cells.dim()
}

/// Indexing an `ndarray` array, as for codes.
#[verifier::external_body]
fn word_grid_at(g: &WordGrid, row: usize, col: usize) -> (r: u16)
    requires
        row < word_rows(*g).len(),
        col < word_width(*g),
    ensures
        r == word_rows(*g)[row as int][col as int],
{
    g.cells[[row, col]]
}

/// The same numbers in a wider type.
pub open spec fn widened(rows: Seq<Seq<u16>>) -> Seq<Seq<i64>> {
    rows.map_values(|row: Seq<u16>| row.map_values(|v: u16| v as i64))
}

impl WordGrid {
    pub open spec fn rows(self) -> Seq<Seq<u16>> {
        word_rows(self)
    }

    pub open spec fn width(self) -> nat {
        word_width(self)
    }

    /// The grid of `rows` rows and `cols` columns that `cells` fills row by
    /// row, if `cells` has that shape.
    pub fn from_cells(rows: usize, cols: usize, cells: Vec<u16>) -> (r: Option<WordGrid>)
        ensures
            r is Some <==> table_shape(rows as nat, cols as nat, cells@.len()),
            r matches Some(g) ==> g.rows() == rows_of(cells@, rows as nat, cols as nat)
                && g.width() == cols,
    {
        word_grid_from_vec(rows, cols, cells)
    }

    /// The number of rows and of columns.
    pub fn dim(&self) -> (r: (usize, usize))
        ensures
            r.0 == self.rows().len(),
            r.1 == self.width(),
            rectangular(self.rows(), self.width()),
            r.0 <= isize::MAX,
            r.1 <= isize::MAX,
    {
        word_grid_dim(self)
    }

    pub fn at(&self, row: usize, col: usize) -> (r: u16)
        requires
            row < self.rows().len(),
            col < self.width(),
        ensures
            r == self.rows()[row as int][col as int],
    {
        word_grid_at(self, row, col)
    }

    /// The stored words as codec codes.
    pub fn to_codes(&self) -> (r: CodeGrid)
        ensures
            r.rows() == widened(self.rows()),
            r.width() == self.width(),
    {
        let (rows, cols) = self.dim();
        let mut table: Vec<Vec<i64>> = Vec::new();
        for i in 0..rows
            invariant
                rows == self.rows().len(),
                cols == self.width(),
                rectangular(self.rows(), cols as nat),
                table@.len() == i,
                forall|r: int|
                    #![trigger table@[r]]
                    0 <= r < i ==> table@[r]@ == widened(self.rows())[r],
        {
            let mut line: Vec<i64> = Vec::new();
            for j in 0..cols
                invariant
                    i < rows,
                    rows == self.rows().len(),
                    cols == self.width(),
                    rectangular(self.rows(), cols as nat),
                    line@.len() == j,
                    forall|c: int|
                        0 <= c < j ==> #[trigger] line@[c] == self.rows()[i as int][c] as i64,
            {
                line.push(self.at(i, j) as i64);
            }
            assert(line@ =~= widened(self.rows())[i as int]);
            table.push(line);
        }
        assert(row_views(table@) =~= widened(self.rows()));
        CodeGrid::from_rows(&table, cols)
    }
}

/// A batch of one table of integers, as the models take it.
#[verifier::external_body]
pub struct BatchTensor {
    cells: ndarray::Array3<i64>,
}

/// The rows of a batch tensor.
pub uninterp spec fn batch_rows(p: BatchTensor) -> Seq<Seq<i64>>;

/// The number of columns of a batch tensor.
pub uninterp spec fn batch_width(p: BatchTensor) -> nat;

/// `ndarray::Array3::from_shape_vec` with a first side of one lays the vector
/// out row by row, under the same conditions as for two sides.
#[verifier::external_body]
fn batch_from_vec(rows: usize, cols: usize, cells: Vec<i64>) -> (r: Option<BatchTensor>)
    ensures
        r is Some <==> table_shape(rows as nat, cols as nat, cells@.len()),
        r matches Some(p) ==> batch_rows(p) == rows_of(cells@, rows as nat, cols as nat)
            && batch_width(p) == cols,
{
    match ndarray::Array3::from_shape_vec((1, rows, cols), cells) {
        Ok(cells) => Some(BatchTensor { cells }),
        Err(_) => None,
    }
}

/// `ndarray::ArrayBase::dim` gives the three sides of the array; a batch
/// tensor has a first side of one.
#[verifier::external_body]
fn batch_dim(p: &BatchTensor) -> (r: (usize, usize, usize))
    ensures
        r.0 == 1,
        r.1 == batch_rows(*p).len(),
        r.2 == batch_width(*p),
        rectangular(batch_rows(*p), r.2 as nat),
        r.1 * r.2 <= isize::MAX,
{
    p.cells.dim()
}

/// Indexing an `ndarray` array with three indices reads that cell; out of
/// bounds it panics.
#[verifier::external_body]
fn batch_at(p: &BatchTensor, row: usize, col: usize) -> (r: i64)
    requires
        row < batch_rows(*p).len(),
        col < batch_width(*p),
    ensures
        r == batch_rows(*p)[row as int][col as int],
{
    p.cells[[0, row, col]]
}

impl BatchTensor {
    pub open spec fn rows(self) -> Seq<Seq<i64>> {
        batch_rows(self)
    }

    pub open spec fn width(self) -> nat {
        batch_width(self)
    }

    /// The tensor that consists of `rows`, each `cols` long.
    pub fn from_rows(rows: &Vec<Vec<i64>>, cols: usize) -> (r: BatchTensor)
        requires
            rectangular(row_views(rows@), cols as nat),
            rows@.len() * cols > 0 || (rows@.len() <= isize::MAX && cols <= isize::MAX),
        ensures
            r.rows() == row_views(rows@),
            r.width() == cols,
    {
        batch_from_vec(rows.len(), cols, flatten(rows, cols)).unwrap()
    }

    /// The three sides: one, the number of rows and the number of columns.
    pub fn dim(&self) -> (r: (usize, usize, usize))
        ensures
            r.0 == 1,
            r.1 == self.rows().len(),
            r.2 == self.width(),
            rectangular(self.rows(), self.width()),
            r.1 * r.2 <= isize::MAX,
    {
        batch_dim(self)
    }

    pub fn at(&self, row: usize, col: usize) -> (r: i64)
        requires
            row < self.rows().len(),
            col < self.width(),
        ensures
            r == self.rows()[row as int][col as int],
    {
        batch_at(self, row, col)
    }

    /// One row, from left to right.
    pub fn row(&self, row: usize) -> (r: Vec<i64>)
        requires
            row < self.rows().len(),
        ensures
            r@ == self.rows()[row as int],
    {
        let cols: usize = self.dim().2;
        let mut out: Vec<i64> = Vec::new();
        for c in 0..cols
            invariant
                row < self.rows().len(),
                cols == self.width(),
                self.rows()[row as int].len() == cols,
                out@ == self.rows()[row as int].take(c as int),
        {
            out.push(self.at(row, c));
            assert(out@ =~= self.rows()[row as int].take(c + 1));
        }
        assert(out@ =~= self.rows()[row as int]);
        out
    }

    /// The cells row by row.
    pub fn cells(&self) -> (r: Vec<i64>)
        ensures
            r@.len() == self.rows().len() * self.width(),
            rows_of(r@, self.rows().len(), self.width()) == self.rows(),
    {
        let (_, rows, cols) = self.dim();
        let mut table: Vec<Vec<i64>> = Vec::new();
        for i in 0..rows
            invariant
                rows == self.rows().len(),
                table@.len() == i,
                forall|r: int|
                    #![trigger table@[r]]
                    0 <= r < i ==> table@[r]@ == self.rows()[r],
        {
            table.push(self.row(i));
        }
        assert(row_views(table@) =~= self.rows());
        flatten(&table, cols)
    }
}

/// Cells fill a table row by row: the cell in a row and a column is the one that
/// as many whole rows and as many cells come before.
pub proof fn law_cells_fill_rows<T>(cells: Seq<T>, rows: nat, cols: nat, r: int, c: int)
    requires
        cells.len() == rows * cols,
        0 <= r < rows,
        0 <= c < cols,
    ensures
        rows_of(cells, rows, cols).len() == rows,
        rows_of(cells, rows, cols)[r].len() == cols,
        0 <= r * cols + c < cells.len(),
        rows_of(cells, rows, cols)[r][c] == cells[r * cols + c],
{
    lemma_row_in_table(r, rows as int, cols as int);
}

/// Stored words keep their places and their values when they are read as codes.
pub proof fn law_codes_are_the_stored_words(g: &WordGrid, r: CodeGrid, i: int, j: int)
    requires
        call_ensures(WordGrid::to_codes, (g,), r),
        0 <= i < g.rows().len(),
        0 <= j < g.rows()[i].len(),
    ensures
        r.rows().len() == g.rows().len(),
        r.width() == g.width(),
        r.rows()[i].len() == g.rows()[i].len(),
        r.rows()[i][j] == g.rows()[i][j] as int,
{
}

/// The cells of a tensor come row by row, and what it is made of can be read from
/// it.
pub proof fn law_tensors_hold_their_rows(
    rows: &Vec<Vec<i64>>,
    cols: usize,
    t: BatchTensor,
    cells: Vec<i64>,
    i: int,
    j: int,
)
    requires
        call_ensures(BatchTensor::from_rows, (rows, cols), t),
        call_ensures(BatchTensor::cells, (&t,), cells),
        0 <= i < rows@.len(),
        0 <= j < cols,
        rectangular(row_views(rows@), cols as nat),
    ensures
        t.rows().len() == rows@.len(),
        t.width() == cols,
        t.rows()[i] == rows@[i]@,
        cells@.len() == rows@.len() * cols,
        cells@[i * cols + j] == rows@[i]@[j],
{
    assert(row_views(rows@)[i] == rows@[i]@);
    law_cells_fill_rows(cells@, rows@.len(), cols as nat, i, j);
}

} // verus!
