use vstd::prelude::*;

verus! {

/// Why a table of costs or a problem was refused.
#[derive(Copy, Clone, Debug, PartialEq, Eq, Structural)]
pub enum MakeSpanError {
    /// The table has no row: there is no job to schedule.
    NoJobs,
    /// The table has no column: there is no machine to choose from.
    NoMachines,
    /// The rows of the table differ in length.
    RaggedRows,
    /// The supplied assignment does not have one entry per job.
    IncumbentLength,
    /// The supplied assignment names a machine that the table does not have.
    MachineOutOfRange,
}

/// A jobs-by-machines table of costs, in whole cost units. It is kept in an
/// `ndarray::Array2<u64>`, which the verifier does not look into: what it
/// holds is known through `matrix_cells` and `matrix_columns` alone.
#[verifier::external_body]
pub struct CostMatrix {
    cells: ndarray::Array2<u64>,
}

/// The rows of the table, each row the costs of one job: the cells of one
/// index of the array's first axis.
pub uninterp spec fn matrix_cells(matrix: CostMatrix) -> Seq<Seq<u64>>;

/// The number of columns (machines) of the table: the length of the array's
/// second axis.
pub uninterp spec fn matrix_columns(matrix: CostMatrix) -> nat;

/// The rows of a nested vector as a sequence of sequences.
pub open spec fn nested<T>(rows: Seq<Vec<T>>) -> Seq<Seq<T>> {
    Seq::new(rows.len(), |i: int| rows[i]@)
}

/// Every row of `rows` has `columns` entries.
pub open spec fn rectangular(rows: Seq<Seq<u64>>, columns: nat) -> bool {
    forall|i: int| 0 <= i < rows.len() ==> (#[trigger] rows[i]).len() == columns
}

/// Where cell `(row, column)` of a table with `columns` columns lies when the
/// table is written out row by row.
pub open spec fn cell_index(row: int, column: int, columns: int) -> int {
    row * columns + column
}

/// `ndarray::Array2::from_shape_vec` with a plain `(rows, columns)` shape,
/// which lays the vector out row by row. It gives an array exactly when the
/// shape's size is the vector's length and fits `isize`; the latter holds of
/// any vector of a non-empty shape. Trusted: the array has `rows` rows of
/// `columns` cells, and cell `(i, j)` is entry `i * columns + j` of the vector.
#[verifier::external_body]
fn array_from_shape_vec(rows: usize, columns: usize, flat: Vec<u64>) -> (made: Option<CostMatrix>)
    ensures
        rows >= 1 && columns >= 1 && rows * columns == flat@.len() ==> made.is_some(),
        made matches Some(matrix) ==> {
            &&& matrix_cells(matrix).len() == rows
            &&& matrix_columns(matrix) == columns
            &&& rectangular(matrix_cells(matrix), columns as nat)
            &&& forall|i: int, j: int|
                0 <= i < rows && 0 <= j < columns ==> #[trigger] matrix_cells(matrix)[i][j]
                    == flat@[cell_index(i, j, columns as int)]
        },
{
    match ndarray::Array2::from_shape_vec((rows, columns), flat) {
        Ok(cells) => Some(CostMatrix { cells }),
        Err(_) => None,
    }
}

/// Trusted: `nrows` of `ndarray` gives the length of the first axis, the
/// number of rows.
#[verifier::external_body]
fn array_nrows(matrix: &CostMatrix) -> (n: usize)
    ensures
        n == matrix_cells(*matrix).len(),
{
    matrix.cells.nrows()
}

/// Trusted: `ncols` of `ndarray` gives the length of the second axis, the
/// number of columns, and every row of a two-dimensional array has that many
/// cells.
#[verifier::external_body]
fn array_ncols(matrix: &CostMatrix) -> (m: usize)
    ensures
        m == matrix_columns(*matrix),
        rectangular(matrix_cells(*matrix), m as nat),
{
    matrix.cells.ncols()
}

/// Trusted: indexing an `ndarray` array by `[[row, column]]` gives that cell;
/// it panics out of bounds, which `requires` leaves out.
#[verifier::external_body]
fn array_cell(matrix: &CostMatrix, row: usize, column: usize) -> (cost: u64)
    requires
        row < matrix_cells(*matrix).len(),
        column < matrix_columns(*matrix),
        column < matrix_cells(*matrix)[row as int].len(),
    ensures
        cost == matrix_cells(*matrix)[row as int][column as int],
{
    matrix.cells[[row, column]]
}

impl CostMatrix {
    /// The rows of the table.
    pub open spec fn view(&self) -> Seq<Seq<u64>> {
        matrix_cells(*self)
    }

    /// The number of machines.
    pub open spec fn columns(&self) -> nat {
        matrix_columns(*self)
    }

    /// The table is a rectangle: every row has one cost per machine.
    pub open spec fn well_formed(&self) -> bool {
        rectangular(self@, self.columns())
    }

    /// Makes the table from its rows, one row per job and one entry per
    /// machine. A table without rows, without columns, or with rows of
    /// different lengths is refused, in that order.
    pub fn from_rows(rows: &Vec<Vec<u64>>) -> (made: Result<CostMatrix, MakeSpanError>)
        ensures
            made == Err::<CostMatrix, MakeSpanError>(MakeSpanError::NoJobs) <==> rows@.len() == 0,
            made == Err::<CostMatrix, MakeSpanError>(MakeSpanError::NoMachines) <==> rows@.len() > 0
                && rows@[0]@.len() == 0,
            made == Err::<CostMatrix, MakeSpanError>(MakeSpanError::RaggedRows) <==> rows@.len() > 0
                && rows@[0]@.len() > 0 && !rectangular(nested(rows@), rows@[0]@.len()),
            made matches Ok(matrix) ==> {
                &&& matrix@ == nested(rows@)
                &&& matrix.columns() == rows@[0]@.len()
                &&& matrix.well_formed()
            },
            made matches Err(e) ==> e == MakeSpanError::NoJobs || e == MakeSpanError::NoMachines
                || e == MakeSpanError::RaggedRows,
    {
        let n = rows.len();
        if n == 0 {
            return Err(MakeSpanError::NoJobs);
        }
        let m = rows[0].len();
        if m == 0 {
            return Err(MakeSpanError::NoMachines);
        }
        let mut flat: Vec<u64> = Vec::new();
        let mut i: usize = 0;
        while i < n
            invariant
                0 <= i <= n,
                n == rows@.len(),
                m == rows@[0]@.len(),
                m > 0,
                flat@.len() == i * m,
                forall|a: int| 0 <= a < i ==> (#[trigger] rows@[a])@.len() == m,
                forall|a: int, b: int|
                    #![trigger cell_index(a, b, m as int)]
                    0 <= a < i && 0 <= b < m ==> 0 <= cell_index(a, b, m as int) < flat@.len()
                        && flat@[cell_index(a, b, m as int)] == rows@[a]@[b],
            decreases n - i,
        {
            let row = &rows[i];
            if row.len() != m {
                assert(nested(rows@)[i as int].len() != m);
                return Err(MakeSpanError::RaggedRows);
            }
            proof {
                assert(0 <= i * m) by (nonlinear_arith)
                    requires
                        0 <= i,
                        0 < m,
                ;
            }
            let mut j: usize = 0;
            while j < m
                invariant
                    0 <= j <= m,
                    0 <= i < n,
                    n == rows@.len(),
                    row@ == rows@[i as int]@,
                    row@.len() == m,
                    flat@.len() == i * m + j,
                    0 <= i * m,
                    forall|a: int, b: int|
                        #![trigger cell_index(a, b, m as int)]
                        0 <= a < i && 0 <= b < m ==> 0 <= cell_index(a, b, m as int) < flat@.len()
                            && flat@[cell_index(a, b, m as int)] == rows@[a]@[b],
                    forall|b: int| 0 <= b < j ==> flat@[i * m + b] == #[trigger] row@[b],
                    forall|a: int| 0 <= a < i ==> (#[trigger] rows@[a])@.len() == m,
                decreases m - j,
            {
                flat.push(row[j]);
                j += 1;
            }
            proof {
                assert((i + 1) * m == i * m + m) by (nonlinear_arith);
            }
            i += 1;
        }
        let made = array_from_shape_vec(n, m, flat);
        match made {
            Some(matrix) => {
                proof {
                    assert forall|a: int| 0 <= a < n implies #[trigger] matrix@[a] == nested(
                        rows@,
                    )[a] by {
                        assert forall|b: int| 0 <= b < m implies matrix@[a][b] == rows@[a]@[b] by {
                            assert(matrix_cells(matrix)[a][b] == flat@[cell_index(a, b, m as int)]);
                        }
                        assert(matrix@[a].len() == m);
                        assert(matrix@[a] =~= rows@[a]@);
                    }
                    assert(matrix@ =~= nested(rows@));
                }
                Ok(matrix)
            },
            None => Err(MakeSpanError::NoJobs),
        }
    }

    /// The number of jobs.
    pub fn num_rows(&self) -> (n: usize)
        ensures
            n == self@.len(),
    {
        array_nrows(self)
    }

    /// The number of machines, which is the length of every row.
    pub fn num_columns(&self) -> (m: usize)
        ensures
            m == self.columns(),
            self.well_formed(),
    {
        array_ncols(self)
    }

    /// The cost of `job` on `machine`.
    pub fn cost(&self, job: usize, machine: usize) -> (cost: u64)
        requires
            self.well_formed(),
            job < self@.len(),
            machine < self.columns(),
        ensures
            cost == self@[job as int][machine as int],
    {
        array_cell(self, job, machine)
    }
}

} // verus!
