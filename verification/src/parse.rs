//! Reading a matrix from a text: one row per line, the entries of a row
//! separated by blanks.
use crate::error::ParseError;
use crate::matrix::{is_grid, rows_of, Matrix};
use crate::scalar::Scalar;
use crate::text::{grid_view, token_grid, tokenize};
use vstd::prelude::*;

verus! {

/// Whether every token of row `r` denotes a number.
pub open spec fn row_reads<T: Scalar>(grid: Seq<Seq<Seq<char>>>, r: int) -> bool {
    forall|c: int| 0 <= c < grid[r].len() ==> T::parse_spec(#[trigger] grid[r][c]) is Some
}

/// Whether row `r` reads and has as many tokens as the first row.
pub open spec fn row_fits<T: Scalar>(grid: Seq<Seq<Seq<char>>>, r: int) -> bool {
    row_reads::<T>(grid, r) && grid[r].len() == grid[0].len()
}

/// The numbers that the tokens denote.
pub open spec fn values<T: Scalar>(grid: Seq<Seq<Seq<char>>>) -> Seq<Seq<T>> {
    Seq::new(
        grid.len(),
        |r: int| Seq::new(grid[r].len(), |c: int| T::parse_spec(grid[r][c]).unwrap()),
    )
}

/// Whether `outcome` is what reading the rows of tokens `grid` gives. For
/// every grid exactly one outcome is. The rows are read in their order and
/// the tokens of a row in theirs; the first fault met is the one reported. A
/// row is checked for its length after its tokens were read.
pub open spec fn reading<T: Scalar>(
    grid: Seq<Seq<Seq<char>>>,
    outcome: Result<Seq<Seq<T>>, ParseError>,
) -> bool {
    match outcome {
        Ok(m) => {
            &&& grid.len() > 0
            &&& grid[0].len() > 0
            &&& forall|r: int| 0 <= r < grid.len() ==> row_fits::<T>(grid, r)
            &&& m == values::<T>(grid)
        },
        Err(ParseError::EmptyInput) => grid.len() == 0,
        Err(ParseError::EmptyRow) => grid.len() > 0 && grid[0].len() == 0,
        Err(ParseError::InvalidNumber { row, col }) => {
            &&& grid.len() > 0
            &&& grid[0].len() > 0
            &&& row < grid.len()
            &&& col < grid[row as int].len()
            &&& forall|r: int| 0 <= r < row ==> row_fits::<T>(grid, r)
            &&& forall|c: int| 0 <= c < col ==> T::parse_spec(#[trigger] grid[row as int][c]) is Some
            &&& T::parse_spec(grid[row as int][col as int]) is None
        },
        Err(ParseError::InconsistentColumns { row }) => {
            &&& grid.len() > 0
            &&& grid[0].len() > 0
            &&& row < grid.len()
            &&& forall|r: int| 0 <= r < row ==> row_fits::<T>(grid, r)
            &&& row_reads::<T>(grid, row as int)
            &&& grid[row as int].len() != grid[0].len()
        },
    }
}

/// No grid has two outcomes.
pub proof fn reading_is_unique<T: Scalar>(
    grid: Seq<Seq<Seq<char>>>,
    a: Result<Seq<Seq<T>>, ParseError>,
    b: Result<Seq<Seq<T>>, ParseError>,
)
    requires
        reading::<T>(grid, a),
        reading::<T>(grid, b),
    ensures
        a == b,
{
    let row_a: int = match a {
        Err(ParseError::InvalidNumber { row, col }) => row as int,
        Err(ParseError::InconsistentColumns { row }) => row as int,
        _ => grid.len() as int,
    };
    let row_b: int = match b {
        Err(ParseError::InvalidNumber { row, col }) => row as int,
        Err(ParseError::InconsistentColumns { row }) => row as int,
        _ => grid.len() as int,
    };
    if grid.len() > 0 && grid[0].len() > 0 {
        if row_a < row_b {
            assert(row_fits::<T>(grid, row_a));
            if let Err(ParseError::InvalidNumber { row, col }) = a {
                assert(T::parse_spec(grid[row_a][col as int]) is Some);
            }
        } else if row_b < row_a {
            assert(row_fits::<T>(grid, row_b));
            if let Err(ParseError::InvalidNumber { row, col }) = b {
                assert(T::parse_spec(grid[row_b][col as int]) is Some);
            }
        } else if row_a < grid.len() {
            match (a, b) {
                (
                    Err(ParseError::InvalidNumber { row: _, col: ca }),
                    Err(ParseError::InvalidNumber { row: _, col: cb }),
                ) => {
                    if ca < cb {
                        assert(T::parse_spec(grid[row_a][ca as int]) is Some);
                    } else if cb < ca {
                        assert(T::parse_spec(grid[row_a][cb as int]) is Some);
                    }
                },
                (Err(ParseError::InvalidNumber { row: _, col }), _) => {
                    assert(T::parse_spec(grid[row_a][col as int]) is Some);
                },
                (_, Err(ParseError::InvalidNumber { row: _, col })) => {
                    assert(T::parse_spec(grid[row_a][col as int]) is Some);
                },
                _ => {},
            }
        }
    }
}

/// The outcome of a reading, with the matrix taken by its view.
pub open spec fn outcome_view<T>(r: Result<Matrix<T>, ParseError>) -> Result<
    Seq<Seq<T>>,
    ParseError,
> {
    match r {
        Ok(m) => Ok(m@),
        Err(e) => Err(e),
    }
}

impl<T: Scalar> Matrix<T> {
    /// Reads a matrix from a text. The text is trimmed and split into lines,
    /// each line is a row, and the words of a line are its entries. A text
    /// has at least one line, so `EmptyInput` is never the outcome.
    pub fn from_str(text: &str) -> (r: Result<Matrix<T>, ParseError>)
        ensures
            reading::<T>(token_grid(text@), outcome_view(r)),
            r != Err::<Matrix<T>, ParseError>(ParseError::EmptyInput),
    {
        let rows = tokenize(text);
        let ghost grid = token_grid(text@);
        let rows_count = rows.len();
        assert(grid_view(rows@).len() == rows.len());
        if rows_count == 0 {
            return Err(ParseError::EmptyInput);
        }
        let cols_count = rows[0].len();
        assert(grid_view(rows@)[0].len() == rows[0].len());
        if cols_count == 0 {
            return Err(ParseError::EmptyRow);
        }
        let mut data: Vec<Vec<T>> = Vec::new();
        let mut i: usize = 0;
        while i < rows_count
            invariant
                i <= rows_count,
                rows_count == rows.len(),
                rows_count == grid.len(),
                cols_count == grid[0].len(),
                cols_count > 0,
                grid == token_grid(text@),
                grid_view(rows@) == grid,
                data.len() == i,
                forall|k: int| 0 <= k < i ==> row_fits::<T>(grid, k),
                forall|k: int| 0 <= k < i ==> (#[trigger] data[k])@ == values::<T>(grid)[k],
            decreases rows_count - i,
        {
            let width = rows[i].len();
            assert(grid_view(rows@)[i as int].len() == rows[i as int].len());
            let mut line: Vec<T> = Vec::new();
            let mut j: usize = 0;
            while j < width
                invariant
                    j <= width,
                    i < rows.len(),
                    rows.len() == grid.len(),
                    grid == token_grid(text@),
                    width == rows[i as int].len(),
                    width == grid[i as int].len(),
                    grid_view(rows@) == grid,
                    grid.len() > 0,
                    grid[0].len() > 0,
                    forall|k: int| 0 <= k < i ==> row_fits::<T>(grid, k),
                    line.len() == j,
                    forall|k: int|
                        0 <= k < j ==> T::parse_spec(#[trigger] grid[i as int][k]) == Some(line[k]),
                decreases width - j,
            {
                assert(grid_view(rows@)[i as int][j as int] == rows[i as int][j as int]@);
                match T::parse(rows[i][j].as_str()) {
                    Some(v) => {
                        line.push(v);
                    },
                    None => {
                        return Err(ParseError::InvalidNumber { row: i, col: j });
                    },
                }
                j += 1;
            }
            if line.len() != cols_count {
                return Err(ParseError::InconsistentColumns { row: i });
            }
            assert(line@ =~= values::<T>(grid)[i as int]);
            data.push(line);
            i += 1;
        }
        assert(rows_of(data@) =~= values::<T>(grid));
        assert(is_grid(values::<T>(grid))) by {
            assert forall|r: int| 0 <= r < grid.len() implies #[trigger] values::<T>(grid)[r].len()
                == values::<T>(grid)[0].len() by {
                assert(row_fits::<T>(grid, r));
            }
        }
        Ok(Matrix::from_grid(data))
    }
}

} // verus!
