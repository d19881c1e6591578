//! Writing a matrix as text: one line per row, every entry centred in the
//! width of its column.
use crate::matrix::{is_grid, Matrix};
use crate::scalar::Scalar;
use vstd::prelude::*;

verus! {

/// The texts of the entries.
pub open spec fn texts<T: Scalar>(m: Seq<Seq<T>>) -> Seq<Seq<Seq<char>>> {
    Seq::new(m.len(), |i: int| Seq::new(m[i].len(), |j: int| m[i][j].text_spec()))
}

/// The greatest length of a text in column `j` among the first `k` rows.
pub open spec fn column_width(cells: Seq<Seq<Seq<char>>>, j: int, k: nat) -> nat
    decreases k,
{
    if k == 0 {
        0
    } else {
        let above = column_width(cells, j, (k - 1) as nat);
        if cells[k - 1][j].len() > above {
            cells[k - 1][j].len()
        } else {
            above
        }
    }
}

/// A run of `n` spaces.
pub open spec fn spaces(n: nat) -> Seq<char> {
    Seq::new(n, |i: int| ' ')
}

/// A text centred in a field of `width` characters. Where the spaces that
/// fill the field cannot be halved, the one more stands on the right. A text
/// longer than the field stays as it is.
pub open spec fn centred(text: Seq<char>, width: nat) -> Seq<char> {
    let fill = if width > text.len() {
        (width - text.len()) as nat
    } else {
        0
    };
    spaces(fill / 2) + text + spaces((fill - fill / 2) as nat)
}

/// An entry as it is written: centred in the width of its column, with one
/// space before and one after.
pub open spec fn cell(text: Seq<char>, width: nat) -> Seq<char> {
    seq![' '] + centred(text, width) + seq![' ']
}

/// The first `k` entries of row `i` as they are written, one after the other.
pub open spec fn row_text(cells: Seq<Seq<Seq<char>>>, i: int, k: nat) -> Seq<char>
    decreases k,
{
    if k == 0 {
        Seq::empty()
    } else {
        row_text(cells, i, (k - 1) as nat) + cell(
            cells[i][k - 1],
            column_width(cells, k - 1, cells.len()),
        )
    }
}

/// The first `k` rows as they are written, each ended by a line feed.
pub open spec fn rendered_rows(cells: Seq<Seq<Seq<char>>>, k: nat) -> Seq<char>
    decreases k,
{
    if k == 0 {
        Seq::empty()
    } else {
        rendered_rows(cells, (k - 1) as nat) + row_text(cells, k - 1, cells[k - 1].len()) + seq![
            '\n',
        ]
    }
}

/// The text of a matrix whose entries have the texts `cells`.
pub open spec fn rendered(cells: Seq<Seq<Seq<char>>>) -> Seq<char> {
    rendered_rows(cells, cells.len())
}

/// Appends `n` spaces to a text.
fn push_spaces(out: &mut String, n: usize)
    ensures
        final(out)@ == old(out)@ + spaces(n as nat),
{
    let mut i: usize = 0;
    assert(out@ =~= old(out)@ + spaces(0));
    while i < n
        invariant
            i <= n,
            out@ == old(out)@ + spaces(i as nat),
        decreases n - i,
    {
        proof {
            reveal_strlit(" ");
        }
        let ghost before = out@;
        out.append(" ");
        assert(out@ =~= old(out)@ + spaces((i + 1) as nat)) by {
            assert(" "@ =~= seq![' ']);
            assert(out@ == before + " "@);
        }
        i += 1;
    }
}

impl<T: Scalar> Matrix<T> {
    /// The texts of the entries, row by row.
    fn entry_texts(&self) -> (r: Vec<Vec<String>>)
        ensures
            crate::text::grid_view(r@) == texts(self@),
    {
        let rows = self.rows();
        let cols = self.cols();
        let mut out: Vec<Vec<String>> = Vec::new();
        let mut i: usize = 0;
        while i < rows
            invariant
                i <= rows,
                rows == self@.len(),
                cols == self@[0].len(),
                is_grid(self@),
                out.len() == i,
                forall|k: int|
                    0 <= k < i ==> Seq::new((#[trigger] out[k])@.len(), |j: int| out[k][j]@)
                        == texts(self@)[k],
            decreases rows - i,
        {
            let mut line: Vec<String> = Vec::new();
            let mut j: usize = 0;
            while j < cols
                invariant
                    j <= cols,
                    i < rows,
                    rows == self@.len(),
                    cols == self@[0].len(),
                    is_grid(self@),
                    line.len() == j,
                    forall|k: int| 0 <= k < j ==> (#[trigger] line[k])@ == self@[i as int][k].text_spec(),
                decreases cols - j,
            {
                line.push(self.get(i, j).to_text());
                j += 1;
            }
            assert(Seq::new(line@.len(), |j: int| line[j]@) =~= texts(self@)[i as int]);
            out.push(line);
            i += 1;
        }
        assert(crate::text::grid_view(out@) =~= texts(self@));
        out
    }

    /// The matrix as text. Every entry is written centred in the width of
    /// the longest text of its column, with one space on each side; every
    /// row ends with a line feed.
    pub fn format(&self) -> (r: String)
        ensures
            r@ == rendered(texts(self@)),
    {
        let rows = self.rows();
        let cols = self.cols();
        let cells = self.entry_texts();
        let ghost grid = texts(self@);
        assert(crate::text::grid_view(cells@).len() == cells.len());
        assert(grid.len() == rows);
        assert(forall|i: int, j: int|
            0 <= i < rows && 0 <= j < cols ==> (#[trigger] cells[i][j])@ == grid[i][j]) by {
            assert forall|i: int, j: int| 0 <= i < rows && 0 <= j < cols implies (#[trigger] cells[i][j])@
                == grid[i][j] by {
                assert(grid[i].len() == cols);
                assert(crate::text::grid_view(cells@)[i].len() == cells[i].len());
                assert(crate::text::grid_view(cells@)[i][j] == cells[i][j]@);
            }
        }
        assert(forall|i: int| 0 <= i < rows ==> (#[trigger] cells[i]).len() == cols) by {
            assert forall|i: int| 0 <= i < rows implies (#[trigger] cells[i]).len() == cols by {
                assert(grid[i].len() == cols);
                assert(crate::text::grid_view(cells@)[i].len() == cells[i].len());
            }
        }
        assert(forall|i: int| 0 <= i < rows ==> (#[trigger] grid[i]).len() == cols);
        let mut widths: Vec<usize> = Vec::new();
        let mut j: usize = 0;
        while j < cols
            invariant
                j <= cols,
                rows == cells.len(),
                rows == grid.len(),
                forall|i: int| 0 <= i < rows ==> (#[trigger] cells[i]).len() == cols,
                forall|i: int, l: int|
                    0 <= i < rows && 0 <= l < cols ==> (#[trigger] cells[i][l])@ == grid[i][l],
                widths.len() == j,
                forall|l: int| 0 <= l < j ==> #[trigger] widths[l] == column_width(grid, l, rows as nat),
            decreases cols - j,
        {
            let mut width: usize = 0;
            let mut i: usize = 0;
            while i < rows
                invariant
                    i <= rows,
                    j < cols,
                    rows == cells.len(),
                    forall|i: int| 0 <= i < rows ==> (#[trigger] cells[i]).len() == cols,
                    forall|i: int, l: int|
                        0 <= i < rows && 0 <= l < cols ==> (#[trigger] cells[i][l])@ == grid[i][l],
                    width == column_width(grid, j as int, i as nat),
                decreases rows - i,
            {
                let len = cells[i][j].as_str().unicode_len();
                if len > width {
                    width = len;
                }
                i += 1;
            }
            widths.push(width);
            j += 1;
        }
        let mut out = String::new();
        let mut i: usize = 0;
        assert(out@ =~= rendered_rows(grid, 0));
        while i < rows
            invariant
                i <= rows,
                rows == cells.len(),
                rows == grid.len(),
                forall|i: int| 0 <= i < rows ==> (#[trigger] cells[i]).len() == cols,
                forall|i: int| 0 <= i < rows ==> (#[trigger] grid[i]).len() == cols,
                forall|i: int, l: int|
                    0 <= i < rows && 0 <= l < cols ==> (#[trigger] cells[i][l])@ == grid[i][l],
                widths.len() == cols,
                forall|l: int| 0 <= l < cols ==> #[trigger] widths[l] == column_width(grid, l, rows as nat),
                out@ == rendered_rows(grid, i as nat),
            decreases rows - i,
        {
            let ghost above = out@;
            let mut j: usize = 0;
            assert(out@ =~= above + row_text(grid, i as int, 0));
            while j < cols
                invariant
                    j <= cols,
                    i < rows,
                    rows == cells.len(),
                    rows == grid.len(),
                    forall|i: int| 0 <= i < rows ==> (#[trigger] cells[i]).len() == cols,
                    forall|i: int, l: int|
                        0 <= i < rows && 0 <= l < cols ==> (#[trigger] cells[i][l])@ == grid[i][l],
                    widths.len() == cols,
                    forall|l: int|
                        0 <= l < cols ==> #[trigger] widths[l] == column_width(grid, l, rows as nat),
                    out@ == above + row_text(grid, i as int, j as nat),
                decreases cols - j,
            {
                proof {
                    reveal_strlit(" ");
                    assert(" "@ =~= seq![' ']);
                }
                let ghost before = out@;
                let entry = cells[i][j].as_str();
                let len = entry.unicode_len();
                let width = widths[j];
                let fill = if width > len {
                    width - len
                } else {
                    0
                };
                let left = fill / 2;
                out.append(" ");
                push_spaces(&mut out, left);
                out.append(entry);
                push_spaces(&mut out, fill - left);
                out.append(" ");
                assert(out@ =~= before + cell(grid[i as int][j as int], width as nat));
                assert(out@ =~= above + row_text(grid, i as int, (j + 1) as nat));
                j += 1;
            }
            proof {
                reveal_strlit("\n");
                assert("\n"@ =~= seq!['\n']);
            }
            out.append("\n");
            assert(out@ =~= rendered_rows(grid, (i + 1) as nat));
            i += 1;
        }
        out
    }
}

} // verus!
