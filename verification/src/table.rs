//! The three-level layout model: `Cell` -> `Row` -> `Table`.
//!
//! A row and a table carry cached aggregate dimensions that are only brought
//! up to date by an explicit call to `calc_height_and_width`; constructing a
//! value leaves them at 0.  `Table::change_value` replaces one cell's text and
//! then recomputes the owning row and the table.

use vstd::prelude::*;

verus! {

/// Smallest layout unit: a text value together with fixed display dimensions.
pub struct Cell {
    pub value: String,
    pub height_of_cell: u16,
    pub width_of_cell: u16,
}

/// Ordered group of cells.  `height_of_row` / `width_of_row` are cached
/// aggregates, stale until `calc_height_and_width` is called.
pub struct Row {
    pub cells: Vec<Cell>,
    pub height_of_row: u16,
    pub width_of_row: u16,
}

/// Ordered group of rows, with the same explicit-recompute contract as `Row`.
pub struct Table {
    pub rows: Vec<Row>,
    pub height_of_table: u16,
    pub width_of_table: u16,
}

/// Error returned when an index does not address an existing element.
#[derive(Debug, Clone, Copy, PartialEq, Eq, Structural)]
pub enum TableError {
    RowIndexOutOfBounds,
    CellIndexOutOfBounds,
}

/// Derived height of a cell sequence: the maximum cell height, 0 if empty.
pub open spec fn row_height(cells: Seq<Cell>) -> int
    decreases cells.len(),
{
    if cells.len() == 0 {
        0
    } else {
        let rest = row_height(cells.drop_last());
        if cells.last().height_of_cell as int > rest {
            cells.last().height_of_cell as int
        } else {
            rest
        }
    }
}

/// Derived width of a cell sequence: the sum of the cell widths.
pub open spec fn row_width(cells: Seq<Cell>) -> int
    decreases cells.len(),
{
    if cells.len() == 0 {
        0
    } else {
        row_width(cells.drop_last()) + cells.last().width_of_cell
    }
}

/// Derived height of a row sequence: the sum of the cached row heights.
pub open spec fn table_height(rows: Seq<Row>) -> int
    decreases rows.len(),
{
    if rows.len() == 0 {
        0
    } else {
        table_height(rows.drop_last()) + rows.last().height_of_row
    }
}

/// Derived width of a row sequence: the sum of the cached row widths.
pub open spec fn table_width(rows: Seq<Row>) -> int
    decreases rows.len(),
{
    if rows.len() == 0 {
        0
    } else {
        table_width(rows.drop_last()) + rows.last().width_of_row
    }
}

/// The row as `Row::calc_height_and_width` leaves it.
pub open spec fn recomputed_row(r: Row) -> Row {
    Row {
        cells: r.cells,
        height_of_row: row_height(r.cells@) as u16,
        width_of_row: row_width(r.cells@) as u16,
    }
}

/// `after` is `before` with its cached dimensions freshly derived.
pub open spec fn row_recompute_rel(before: Row, after: Row) -> bool {
    &&& after.cells == before.cells
    &&& after.height_of_row as int == row_height(before.cells@)
    &&& after.width_of_row as int == row_width(before.cells@)
}

/// `after` is `before` with its cached dimensions freshly derived.
pub open spec fn table_recompute_rel(before: Table, after: Table) -> bool {
    &&& after.rows == before.rows
    &&& after.height_of_table as int == table_height(before.rows@)
    &&& after.width_of_table as int == table_width(before.rows@)
}

/// A row height is the height of one of the cells, so it always fits in
/// `u16`; widths are sums of non-negative terms.
pub proof fn lemma_row_dims_bounds(cells: Seq<Cell>)
    ensures
        0 <= row_height(cells) <= u16::MAX,
        0 <= row_width(cells),
    decreases cells.len(),
{
    if cells.len() > 0 {
        lemma_row_dims_bounds(cells.drop_last());
    }
}

/// Table sums are non-negative.
pub proof fn lemma_table_dims_bounds(rows: Seq<Row>)
    ensures
        0 <= table_height(rows),
        0 <= table_width(rows),
    decreases rows.len(),
{
    if rows.len() > 0 {
        lemma_table_dims_bounds(rows.drop_last());
    }
}

/// The derived height of a non-empty row is the maximum of the cell heights:
/// no cell is taller, and some cell reaches it.  An empty row derives 0.
pub proof fn lemma_row_height_is_max(cells: Seq<Cell>)
    ensures
        forall|i: int|
            0 <= i < cells.len() ==> cells[i].height_of_cell as int <= row_height(cells),
        cells.len() > 0 ==> exists|i: int|
            0 <= i < cells.len() && cells[i].height_of_cell as int == row_height(cells),
        cells.len() == 0 ==> row_height(cells) == 0,
    decreases cells.len(),
{
    if cells.len() > 0 {
        lemma_row_height_is_max(cells.drop_last());
        assert(forall|i: int|
            0 <= i < cells.len() - 1 ==> cells[i] == cells.drop_last()[i]);
        if cells.last().height_of_cell as int > row_height(cells.drop_last()) {
            assert(cells[cells.len() - 1].height_of_cell as int == row_height(cells));
        } else {
            if cells.len() > 1 {
                let j = choose|j: int|
                    0 <= j < cells.len() - 1 && cells.drop_last()[j].height_of_cell as int
                        == row_height(cells.drop_last());
                assert(cells[j].height_of_cell as int == row_height(cells));
            }
        }
    }
}

/// Sums and maxima over a prefix never exceed those over the whole sequence.
pub proof fn lemma_row_dims_take(cells: Seq<Cell>, i: int)
    requires
        0 <= i <= cells.len(),
    ensures
        row_width(cells.take(i)) <= row_width(cells),
        row_height(cells.take(i)) <= row_height(cells),
    decreases cells.len() - i,
{
    if i == cells.len() {
        assert(cells.take(i) =~= cells);
    } else {
        lemma_row_dims_take(cells, i + 1);
        assert(cells.take(i + 1).drop_last() =~= cells.take(i));
        lemma_row_dims_bounds(cells.take(i));
    }
}

/// Sums over a prefix of rows never exceed those over the whole sequence.
pub proof fn lemma_table_dims_take(rows: Seq<Row>, i: int)
    requires
        0 <= i <= rows.len(),
    ensures
        table_height(rows.take(i)) <= table_height(rows),
        table_width(rows.take(i)) <= table_width(rows),
    decreases rows.len() - i,
{
    if i == rows.len() {
        assert(rows.take(i) =~= rows);
    } else {
        lemma_table_dims_take(rows, i + 1);
        assert(rows.take(i + 1).drop_last() =~= rows.take(i));
    }
}

/// Row dimensions depend only on the cell dimensions, never on the values.
pub proof fn lemma_row_dims_ignore_values(a: Seq<Cell>, b: Seq<Cell>)
    requires
        a.len() == b.len(),
        forall|i: int|
            0 <= i < a.len() ==> a[i].height_of_cell == b[i].height_of_cell
                && a[i].width_of_cell == b[i].width_of_cell,
    ensures
        row_height(a) == row_height(b),
        row_width(a) == row_width(b),
    decreases a.len(),
{
    if a.len() > 0 {
        assert(forall|i: int| 0 <= i < a.len() - 1 ==> a.drop_last()[i] == a[i]);
        assert(forall|i: int| 0 <= i < b.len() - 1 ==> b.drop_last()[i] == b[i]);
        lemma_row_dims_ignore_values(a.drop_last(), b.drop_last());
    }
}

/// Table dimensions depend only on the cached row dimensions.
pub proof fn lemma_table_dims_pointwise(a: Seq<Row>, b: Seq<Row>)
    requires
        a.len() == b.len(),
        forall|i: int|
            0 <= i < a.len() ==> a[i].height_of_row == b[i].height_of_row
                && a[i].width_of_row == b[i].width_of_row,
    ensures
        table_height(a) == table_height(b),
        table_width(a) == table_width(b),
    decreases a.len(),
{
    if a.len() > 0 {
        assert(forall|i: int| 0 <= i < a.len() - 1 ==> a.drop_last()[i] == a[i]);
        assert(forall|i: int| 0 <= i < b.len() - 1 ==> b.drop_last()[i] == b[i]);
        lemma_table_dims_pointwise(a.drop_last(), b.drop_last());
    }
}

/// Recomputing a row twice without an intervening mutation changes nothing
/// the second time: the result of the second recompute equals the first.
pub proof fn lemma_row_recompute_idempotent(r0: Row, r1: Row, r2: Row)
    requires
        row_recompute_rel(r0, r1),
        row_recompute_rel(r1, r2),
    ensures
        r2 == r1,
{
}

/// Recomputing a table twice without an intervening mutation changes nothing
/// the second time: the result of the second recompute equals the first.
pub proof fn lemma_table_recompute_idempotent(t0: Table, t1: Table, t2: Table)
    requires
        table_recompute_rel(t0, t1),
        table_recompute_rel(t1, t2),
    ensures
        t2 == t1,
{
}

impl Cell {
    /// Constructs a cell; no validation is performed on the inputs.
    pub fn new(value: String, height: u16, width: u16) -> (c: Cell)
        ensures
            c.value == value,
            c.height_of_cell == height,
            c.width_of_cell == width,
    {
        Cell { value, height_of_cell: height, width_of_cell: width }
    }
}

impl Row {
    /// Constructs a row whose cached dimensions are still 0, not yet derived.
    pub fn new(cells: Vec<Cell>) -> (r: Row)
        ensures
            r.cells == cells,
            r.height_of_row == 0,
            r.width_of_row == 0,
    {
        Row { cells, height_of_row: 0, width_of_row: 0 }
    }

    /// Refreshes the cached dimensions: height becomes the maximum cell
    /// height (0 if there are no cells), width the sum of the cell widths.
    #[verifier::loop_isolation(false)]
    pub fn calc_height_and_width(&mut self)
        requires
            row_width(old(self).cells@) <= u16::MAX,
        ensures
            row_recompute_rel(*old(self), *final(self)),
    {
        let mut max_height: u16 = 0;
        let mut total_width: u16 = 0;
        let n = self.cells.len();
        let mut i: usize = 0;
        while i < n
            invariant
                i <= n,
                *self == *old(self),
                max_height as int == row_height(self.cells@.take(i as int)),
                total_width as int == row_width(self.cells@.take(i as int)),
            decreases n - i,
        {
            proof {
                assert(self.cells@.take(i + 1).drop_last() =~= self.cells@.take(i as int));
                lemma_row_dims_bounds(self.cells@.take(i + 1));
                lemma_row_dims_take(self.cells@, i + 1);
            }
            if max_height < self.cells[i].height_of_cell {
                max_height = self.cells[i].height_of_cell;
            }
            total_width = total_width + self.cells[i].width_of_cell;
            i = i + 1;
        }
        proof {
            assert(self.cells@.take(n as int) =~= self.cells@);
        }
        self.height_of_row = max_height;
        self.width_of_row = total_width;
    }
}

impl Table {
    /// Constructs a table whose cached dimensions are still 0, not yet derived.
    pub fn new(rows: Vec<Row>) -> (t: Table)
        ensures
            t.rows == rows,
            t.height_of_table == 0,
            t.width_of_table == 0,
    {
        Table { rows, height_of_table: 0, width_of_table: 0 }
    }

    /// Refreshes the cached dimensions: height and width become the sums of
    /// the cached row heights and widths.
    #[verifier::loop_isolation(false)]
    pub fn calc_height_and_width(&mut self)
        requires
            table_height(old(self).rows@) <= u16::MAX,
            table_width(old(self).rows@) <= u16::MAX,
        ensures
            table_recompute_rel(*old(self), *final(self)),
    {
        let mut total_height: u16 = 0;
        let mut total_width: u16 = 0;
        let n = self.rows.len();
        let mut i: usize = 0;
        while i < n
            invariant
                i <= n,
                *self == *old(self),
                total_height as int == table_height(self.rows@.take(i as int)),
                total_width as int == table_width(self.rows@.take(i as int)),
            decreases n - i,
        {
            proof {
                assert(self.rows@.take(i + 1).drop_last() =~= self.rows@.take(i as int));
                lemma_table_dims_bounds(self.rows@.take(i as int));
                lemma_table_dims_take(self.rows@, i + 1);
            }
            total_height = total_height + self.rows[i].height_of_row;
            total_width = total_width + self.rows[i].width_of_row;
            i = i + 1;
        }
        proof {
            assert(self.rows@.take(n as int) =~= self.rows@);
        }
        self.height_of_table = total_height;
        self.width_of_table = total_width;
    }

    /// Replaces the value of the addressed cell, then recomputes the owning
    /// row and the table.  Nothing else changes: every other row is left as
    /// it was, and in the addressed row only the one value is replaced.  An
    /// index that does not address an existing element yields an error and
    /// leaves the table untouched.
    pub fn change_value(&mut self, row: usize, cell: usize, val: String) -> (r: Result<
        (),
        TableError,
    >)
        requires
            ({
                let rows0 = old(self).rows@;
                row < rows0.len() && cell < rows0[row as int].cells@.len() ==> {
                    &&& row_width(rows0[row as int].cells@) <= u16::MAX
                    &&& table_height(rows0.update(row as int, recomputed_row(rows0[row as int])))
                        <= u16::MAX
                    &&& table_width(rows0.update(row as int, recomputed_row(rows0[row as int])))
                        <= u16::MAX
                }
            }),
        ensures
            r is Ok <==> row < old(self).rows@.len() && cell < old(
                self,
            ).rows@[row as int].cells@.len(),
            ({
                let rows0 = old(self).rows@;
                match r {
                    Ok(()) => {
                        let r0 = rows0[row as int];
                        let r1 = final(self).rows@[row as int];
                        &&& final(self).rows@.len() == rows0.len()
                        &&& forall|i: int|
                            0 <= i < rows0.len() && i != row ==> final(self).rows@[i] == rows0[i]
                        &&& r1.cells@.len() == r0.cells@.len()
                        &&& forall|j: int|
                            0 <= j < r0.cells@.len() && j != cell ==> r1.cells@[j] == r0.cells@[j]
                        &&& r1.cells@[cell as int].value == val
                        &&& r1.cells@[cell as int].height_of_cell == r0.cells@[
                            cell as int
                        ].height_of_cell
                        &&& r1.cells@[cell as int].width_of_cell == r0.cells@[
                            cell as int
                        ].width_of_cell
                        &&& r1.height_of_row as int == row_height(r0.cells@)
                        &&& r1.width_of_row as int == row_width(r0.cells@)
                        &&& final(self).height_of_table as int == table_height(final(self).rows@)
                        &&& final(self).width_of_table as int == table_width(final(self).rows@)
                    },
                    Err(e) => {
                        &&& final(self).rows == old(self).rows
                        &&& final(self).height_of_table == old(self).height_of_table
                        &&& final(self).width_of_table == old(self).width_of_table
                        &&& (e == TableError::RowIndexOutOfBounds <==> row >= rows0.len())
                        &&& (e == TableError::CellIndexOutOfBounds <==> row < rows0.len() && cell
                            >= rows0[row as int].cells@.len())
                    },
                }
            }),
    {
        if row >= self.rows.len() {
            return Err(TableError::RowIndexOutOfBounds);
        }
        if cell >= self.rows[row].cells.len() {
            return Err(TableError::CellIndexOutOfBounds);
        }
        let ghost rows0 = self.rows@;
        let ghost cells0 = self.rows@[row as int].cells@;
        self.rows[row].cells[cell].value = val;
        proof {
            lemma_row_dims_ignore_values(self.rows@[row as int].cells@, cells0);
        }
        self.rows[row].calc_height_and_width();
        proof {
            lemma_row_dims_bounds(cells0);
            lemma_table_dims_pointwise(
                self.rows@,
                rows0.update(row as int, recomputed_row(rows0[row as int])),
            );
        }
        self.calc_height_and_width();
        Ok(())
    }
}

} // verus!
