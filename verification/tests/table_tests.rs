use tabular::table::{Cell, Row, Table, TableError};

fn cell(value: &str, h: u16, w: u16) -> Cell {
    Cell::new(value.to_string(), h, w)
}

#[test]
fn cell_new_keeps_fields() {
    let c = cell("42", 10, 30);
    assert_eq!(c.value, "42");
    assert_eq!(c.height_of_cell, 10);
    assert_eq!(c.width_of_cell, 30);
}

#[test]
fn row_new_starts_stale() {
    let r = Row::new(vec![cell("1", 10, 30), cell("2", 20, 30)]);
    assert_eq!(r.height_of_row, 0);
    assert_eq!(r.width_of_row, 0);
}

#[test]
fn row_recompute_is_max_and_sum() {
    let mut r = Row::new(vec![cell("a", 10, 30), cell("b", 80, 25), cell("c", 40, 5)]);
    r.calc_height_and_width();
    assert_eq!(r.height_of_row, 80);
    assert_eq!(r.width_of_row, 60);
}

#[test]
fn empty_row_recomputes_to_zero() {
    let mut r = Row::new(vec![]);
    r.calc_height_and_width();
    assert_eq!(r.height_of_row, 0);
    assert_eq!(r.width_of_row, 0);
}

#[test]
fn table_recompute_sums_rows() {
    let mut r1 = Row::new(vec![cell("a", 10, 30), cell("b", 20, 30)]);
    r1.calc_height_and_width();
    let mut r2 = Row::new(vec![cell("c", 50, 15)]);
    r2.calc_height_and_width();
    let mut t = Table::new(vec![r1, r2]);
    assert_eq!(t.height_of_table, 0);
    assert_eq!(t.width_of_table, 0);
    t.calc_height_and_width();
    assert_eq!(t.height_of_table, 70);
    assert_eq!(t.width_of_table, 75);
}

#[test]
fn empty_table_recomputes_to_zero() {
    let mut t = Table::new(vec![]);
    t.calc_height_and_width();
    assert_eq!(t.height_of_table, 0);
    assert_eq!(t.width_of_table, 0);
}

#[test]
fn recompute_twice_is_identical() {
    let mut r = Row::new(vec![cell("x", 30, 12), cell("y", 60, 8)]);
    r.calc_height_and_width();
    let h1 = r.height_of_row;
    let w1 = r.width_of_row;
    r.calc_height_and_width();
    assert_eq!(r.height_of_row, h1);
    assert_eq!(r.width_of_row, w1);

    let mut t = Table::new(vec![r]);
    t.calc_height_and_width();
    let th = t.height_of_table;
    let tw = t.width_of_table;
    t.calc_height_and_width();
    assert_eq!(t.height_of_table, th);
    assert_eq!(t.width_of_table, tw);
}

#[test]
fn change_value_touches_only_the_target() {
    let mut r1 = Row::new(vec![cell("a", 10, 30), cell("b", 20, 30)]);
    r1.calc_height_and_width();
    let mut r2 = Row::new(vec![cell("c", 50, 15)]);
    r2.calc_height_and_width();
    let mut t = Table::new(vec![r1, r2]);
    t.calc_height_and_width();

    let res = t.change_value(0, 1, "changed".to_string());
    assert!(res.is_ok());
    assert_eq!(t.rows[0].cells[1].value, "changed");
    // the untouched cell and the other row keep every field
    assert_eq!(t.rows[0].cells[0].value, "a");
    assert_eq!(t.rows[0].cells[0].height_of_cell, 10);
    assert_eq!(t.rows[1].cells[0].value, "c");
    assert_eq!(t.rows[1].height_of_row, 50);
    assert_eq!(t.rows[1].width_of_row, 15);
    // dimensions are unchanged by a value-only edit
    assert_eq!(t.rows[0].height_of_row, 20);
    assert_eq!(t.rows[0].width_of_row, 60);
    assert_eq!(t.height_of_table, 70);
    assert_eq!(t.width_of_table, 75);
}

#[test]
fn change_value_row_out_of_bounds() {
    let mut r = Row::new(vec![cell("a", 10, 30)]);
    r.calc_height_and_width();
    let mut t = Table::new(vec![r]);
    t.calc_height_and_width();
    let res = t.change_value(1, 0, "nope".to_string());
    assert_eq!(res, Err(TableError::RowIndexOutOfBounds));
    assert_eq!(t.rows[0].cells[0].value, "a");
    assert_eq!(t.height_of_table, 10);
}

#[test]
fn change_value_cell_out_of_bounds() {
    let mut r = Row::new(vec![cell("a", 10, 30)]);
    r.calc_height_and_width();
    let mut t = Table::new(vec![r]);
    t.calc_height_and_width();
    let res = t.change_value(0, 3, "nope".to_string());
    assert_eq!(res, Err(TableError::CellIndexOutOfBounds));
    assert_eq!(t.rows[0].cells[0].value, "a");
    assert_eq!(t.width_of_table, 30);
}
