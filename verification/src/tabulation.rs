//! A small tabular text formatter: rows of optional cells, padded per
//! column to a common width and rendered with tab separators. It is a
//! utility for terminal output around the codec, with no knowledge of the
//! protocol.

use vstd::prelude::*;
use vstd::string::StringExecFns;
use vstd::string::StringSliceAdditionalSpecFns;

verus! {

/// A table of rows; every row has one optional text cell per column.
#[derive(Debug)]
pub struct Table {
    /// How many columns each row has; methods require it to agree with the
    /// rows, as `wf` states.
    pub num_columns: usize,
    /// The rows, each of `num_columns` optional cells.
    pub data: Vec<Vec<Option<String>>>,
}

/// The text length of a cell: zero for an absent cell.
pub open spec fn cell_len(cell: Option<String>) -> int {
    match cell {
        Some(text) => text@.len() as int,
        None => 0,
    }
}

/// The widest cell among the first `rows` entries of one column.
pub open spec fn col_max_len(data: Seq<Vec<Option<String>>>, rows: int, column: int) -> int
    decreases rows,
{
    if rows <= 0 {
        0
    } else {
        let above = col_max_len(data, rows - 1, column);
        let here = cell_len(data[rows - 1]@[column]);
        if here > above {
            here
        } else {
            above
        }
    }
}

/// A run of `n` spaces.
pub open spec fn spaces(n: int) -> Seq<char> {
    Seq::new(n as nat, |i: int| ' ')
}

impl Table {
    /// Every row has exactly `num_columns` cells, and a table without rows
    /// has no columns yet.
    pub open spec fn wf(self) -> bool {
        &&& forall|i: int|
            0 <= i < self.data@.len() ==> (#[trigger] self.data@[i])@.len() == self.num_columns
        &&& self.data@.len() == 0 ==> self.num_columns == 0
    }

    /// The number of columns of the table.
    pub open spec fn spec_num_columns(self) -> int {
        self.num_columns as int
    }

    /// Builds a table from rows, which must share one length; with no rows
    /// given, the table starts empty and takes its column count from the
    /// first push.
    pub fn new(data: Option<Vec<Vec<Option<String>>>>) -> (r: Table)
        requires
            match data {
                Some(rows) => rows@.len() > 0 && forall|i: int|
                    0 <= i < rows@.len() ==> (#[trigger] rows@[i])@.len() == rows@[0]@.len(),
                None => true,
            },
        ensures
            r.wf(),
            match data {
                Some(rows) => r.data == rows && r.spec_num_columns() == rows@[0]@.len(),
                None => r.data@.len() == 0 && r.spec_num_columns() == 0,
            },
    {
        match data {
            Some(data) => {
                let num_columns = data[0].len();
                Table { num_columns, data }
            },
            None => Table { num_columns: 0, data: Vec::new() },
        }
    }

    /// Appends a row. The row must match the table's width; the first row
    /// pushed into an empty table sets that width.
    pub fn push(&mut self, value: Vec<Option<String>>)
        requires
            old(self).wf(),
            old(self).data@.len() == 0 || value@.len() == old(self).spec_num_columns(),
        ensures
            final(self).wf(),
            final(self).data@ == old(self).data@.push(value),
            final(self).spec_num_columns() == value@.len(),
    {
        match self.num_columns {
            0 => {
                self.num_columns = value.len();
                self.data.push(value);
            },
            _ => {
                self.data.push(value);
            },
        }
    }

    /// The cells of one column, top to bottom.
    pub fn get_column(&self, column: usize) -> (r: Vec<&Option<String>>)
        requires
            self.wf(),
            column < self.spec_num_columns(),
        ensures
            r@.len() == self.data@.len(),
            forall|i: int| 0 <= i < r@.len() ==> *(#[trigger] r@[i]) == self.data@[i]@[
                column as int],
    {
        let mut column_cells: Vec<&Option<String>> = Vec::new();
        let mut row: usize = 0;
        while row < self.data.len()
            invariant
                self.wf(),
                column < self.spec_num_columns(),
                row <= self.data@.len(),
                column_cells@.len() == row,
                forall|i: int| 0 <= i < row ==> *(#[trigger] column_cells@[i]) == self.data@[i]@[
                    column as int],
            decreases self.data@.len() - row,
        {
            column_cells.push(&self.data[row][column]);
            row = row + 1;
        }
        column_cells
    }

    /// The width of one column: the longest text among its present cells,
    /// absent cells counting as empty.
    pub fn get_column_max_length(&self, column: usize) -> (r: usize)
        requires
            self.wf(),
            column < self.spec_num_columns(),
        ensures
            r == col_max_len(self.data@, self.data@.len() as int, column as int),
    {
        let column_cells = self.get_column(column);
        let mut max_length: usize = 0;
        let mut index: usize = 0;
        while index < column_cells.len()
            invariant
                column_cells@.len() == self.data@.len(),
                forall|i: int| 0 <= i < column_cells@.len() ==> *(#[trigger] column_cells@[i])
                    == self.data@[i]@[column as int],
                index <= column_cells@.len(),
                max_length == col_max_len(self.data@, index as int, column as int),
            decreases column_cells@.len() - index,
        {
            match column_cells[index] {
                Some(value) => {
                    if value.as_str().unicode_len() > max_length {
                        max_length = value.as_str().unicode_len();
                    }
                },
                _ => {},
            }
            index = index + 1;
        }
        max_length
    }
}


/// A cell padded with trailing spaces to `width` characters: an absent cell
/// becomes all spaces.
pub open spec fn padded_cell(cell: Option<String>, width: int) -> Seq<char> {
    match cell {
        Some(text) => text@ + spaces(width - text@.len()),
        None => spaces(width),
    }
}

/// One row rendered: its cells joined by tabs, over the first `n` cells.
pub open spec fn row_chars(row: Seq<Option<String>>, n: int) -> Seq<char>
    decreases n,
{
    if n <= 0 {
        Seq::empty()
    } else if n == 1 {
        cell_chars(row[0])
    } else {
        row_chars(row, n - 1) + seq!['\t'] + cell_chars(row[n - 1])
    }
}

/// The text of a cell: empty for an absent cell.
pub open spec fn cell_chars(cell: Option<String>) -> Seq<char> {
    match cell {
        Some(text) => text@,
        None => Seq::empty(),
    }
}

/// The first `rows` rows rendered, each closed by a newline.
pub open spec fn table_chars(data: Seq<Vec<Option<String>>>, rows: int) -> Seq<char>
    decreases rows,
{
    if rows <= 0 {
        Seq::empty()
    } else {
        table_chars(data, rows - 1) + row_chars(data[rows - 1]@, data[rows - 1]@.len() as int)
            + seq!['\n']
    }
}

impl Table {
    /// Pads every cell with trailing spaces to its column's width; absent
    /// cells become all-space cells of that width.
    pub fn insert_padding(&mut self)
        requires
            old(self).wf(),
        ensures
            final(self).wf(),
            final(self).spec_num_columns() == old(self).spec_num_columns(),
            final(self).data@.len() == old(self).data@.len(),
            forall|i: int, j: int|
                0 <= i < old(self).data@.len() && 0 <= j < old(self).spec_num_columns()
                    ==> cell_chars(#[trigger] final(self).data@[i]@[j]) == padded_cell(
                    old(self).data@[i]@[j],
                    col_max_len(old(self).data@, old(self).data@.len() as int, j),
                ) && final(self).data@[i]@[j] is Some,
    {
        let ghost data0 = self.data@;
        let ghost rows = self.data@.len() as int;
        let ghost cols = self.spec_num_columns();
        let mut max_lengths: Vec<usize> = Vec::new();
        let mut column: usize = 0;
        while column < self.num_columns
            invariant
                self.wf(),
                *self == *old(self),
                data0 == self.data@,
                cols == self.spec_num_columns(),
                column <= cols,
                max_lengths@.len() == column,
                forall|j: int| 0 <= j < column ==> max_lengths@[j] == col_max_len(
                    data0,
                    data0.len() as int,
                    j,
                ),
            decreases cols - column,
        {
            let max_length = self.get_column_max_length(column);
            max_lengths.push(max_length);
            column = column + 1;
        }
        let mut new_data: Vec<Vec<Option<String>>> = Vec::new();
        let mut row: usize = 0;
        while row < self.data.len()
            invariant
                self.wf(),
                *self == *old(self),
                data0 == self.data@,
                cols == self.spec_num_columns(),
                max_lengths@.len() == cols,
                forall|j: int| 0 <= j < cols ==> max_lengths@[j] == col_max_len(
                    data0,
                    data0.len() as int,
                    j,
                ),
                row <= data0.len(),
                new_data@.len() == row,
                forall|i: int| 0 <= i < row ==> (#[trigger] new_data@[i])@.len() == cols,
                forall|i: int, j: int|
                    0 <= i < row && 0 <= j < cols ==> cell_chars(#[trigger] new_data@[i]@[j])
                        == padded_cell(data0[i]@[j], col_max_len(data0, data0.len() as int, j))
                        && new_data@[i]@[j] is Some,
            decreases data0.len() - row,
        {
            let mut new_row: Vec<Option<String>> = Vec::new();
            let mut column: usize = 0;
            while column < self.num_columns
                invariant
                    self.wf(),
                    data0 == self.data@,
                    cols == self.spec_num_columns(),
                    row < data0.len(),
                    max_lengths@.len() == cols,
                    forall|j: int| 0 <= j < cols ==> max_lengths@[j] == col_max_len(
                        data0,
                        data0.len() as int,
                        j,
                    ),
                    column <= cols,
                    new_row@.len() == column,
                    forall|j: int|
                        0 <= j < column ==> cell_chars(#[trigger] new_row@[j]) == padded_cell(
                            data0[row as int]@[j],
                            col_max_len(data0, data0.len() as int, j),
                        ) && new_row@[j] is Some,
                decreases cols - column,
            {
                let width = max_lengths[column];
                let mut text: String = match &self.data[row][column] {
                    Some(value) => value.clone(),
                    None => String::new(),
                };
                proof {
                    lemma_col_max_len_bounds(data0, data0.len() as int, row as int, column as int);
                }
                let ghost base = text@;
                let mut count: usize = text.as_str().unicode_len();
                while count < width
                    invariant
                        count == text@.len(),
                        base.len() <= count <= width,
                        text@.take(base.len() as int) == base,
                        forall|k: int| base.len() <= k < text@.len() ==> text@[k] == ' ',
                    decreases width - count,
                {
                    proof {
                        reveal_strlit(" ");
                    }
                    text.append(" ");
                    count = count + 1;
                    proof {
                        assert(text@.take(base.len() as int) =~= base);
                    }
                }
                proof {
                    assert(text@ =~= padded_cell(
                        data0[row as int]@[column as int],
                        col_max_len(data0, data0.len() as int, column as int),
                    ));
                }
                new_row.push(Some(text));
                column = column + 1;
            }
            new_data.push(new_row);
            row = row + 1;
        }
        self.data = new_data;
    }

    /// Renders the table: pads every cell to its column's width, then joins
    /// each row's cells with tabs and closes each row with a newline.
    pub fn write(&mut self) -> (r: String)
        requires
            old(self).wf(),
        ensures
            final(self).wf(),
            r@ == table_chars(final(self).data@, final(self).data@.len() as int),
    {
        self.insert_padding();
        let mut out = String::new();
        let ghost data = self.data@;
        let mut row: usize = 0;
        proof {
            reveal_strlit("\t");
            reveal_strlit("\n");
        }
        while row < self.data.len()
            invariant
                self.wf(),
                *self == *old(self) || data == self.data@,
                data == self.data@,
                row <= data.len(),
                out@ == table_chars(data, row as int),
            decreases data.len() - row,
        {
            let mut column: usize = 0;
            let ghost out0 = out@;
            while column < self.data[row].len()
                invariant
                    self.wf(),
                    data == self.data@,
                    row < data.len(),
                    column <= data[row as int]@.len(),
                    out@ == out0 + row_chars(data[row as int]@, column as int),
                decreases data[row as int]@.len() - column,
            {
                proof {
                    reveal_strlit("\t");
                }
                if column > 0 {
                    out.append("\t");
                }
                match &self.data[row][column] {
                    Some(value) => {
                        out.append(value.as_str());
                    },
                    None => {},
                }
                column = column + 1;
            }
            proof {
                reveal_strlit("\n");
            }
            out.append("\n");
            row = row + 1;
        }
        out
    }
}

/// A column's width is at least the width of each of its cells.
proof fn lemma_col_max_len_bounds(data: Seq<Vec<Option<String>>>, rows: int, i: int, j: int)
    requires
        0 <= i < rows,
    ensures
        cell_len(data[i]@[j]) <= col_max_len(data, rows, j),
    decreases rows,
{
    if i < rows - 1 {
        lemma_col_max_len_bounds(data, rows - 1, i, j);
    }
}

} // verus!
