use tabular::table::{Cell, Row, Table};

fn cell(value: &str, h: u16, w: u16) -> Cell {
    Cell::new(value.to_string(), h, w)
}

fn sample_table() -> Table {
    let mut r1 = Row::new(vec![cell("17", 10, 30), cell("92", 40, 30)]);
    r1.calc_height_and_width();
    let mut r2 = Row::new(vec![cell("5", 20, 25)]);
    r2.calc_height_and_width();
    let mut t = Table::new(vec![r1, r2]);
    t.calc_height_and_width();
    t
}

#[test]
fn to_json_exact_shape() {
    let mut r = Row::new(vec![cell("7", 10, 30)]);
    r.calc_height_and_width();
    let mut t = Table::new(vec![r]);
    t.calc_height_and_width();
    assert_eq!(
        t.to_json(),
        "{\"rows\":[{\"cells\":[{\"height_of_cell\":10,\"width_of_cell\":30,\
         \"value\":\"7\"}],\"height_of_row\":10,\"width_of_row\":30}],\
         \"height_of_table\":10,\"width_of_table\":30}"
    );
}

#[test]
fn round_trip_reconstructs_dimensions_and_values() {
    let t = sample_table();
    let text = t.to_json();
    let back = Table::from_json(&text).unwrap();
    assert_eq!(back.height_of_table, t.height_of_table);
    assert_eq!(back.width_of_table, t.width_of_table);
    assert_eq!(back.rows.len(), 2);
    for (a, b) in t.rows.iter().zip(back.rows.iter()) {
        assert_eq!(a.height_of_row, b.height_of_row);
        assert_eq!(a.width_of_row, b.width_of_row);
        assert_eq!(a.cells.len(), b.cells.len());
        for (ca, cb) in a.cells.iter().zip(b.cells.iter()) {
            assert_eq!(ca.height_of_cell, cb.height_of_cell);
            assert_eq!(ca.width_of_cell, cb.width_of_cell);
            assert_eq!(ca.value, cb.value);
        }
    }
}

#[test]
fn round_trip_escapes_value_text() {
    // values are not guaranteed numeric: quotes, backslashes and control
    // characters must round-trip as text
    let mut r = Row::new(vec![cell("say \"hi\"\\\n\tdone", 10, 30), cell("", 20, 30)]);
    r.calc_height_and_width();
    let mut t = Table::new(vec![r]);
    t.calc_height_and_width();
    let text = t.to_json();
    let back = Table::from_json(&text).unwrap();
    assert_eq!(back.rows[0].cells[0].value, "say \"hi\"\\\n\tdone");
    assert_eq!(back.rows[0].cells[1].value, "");
}

#[test]
fn round_trip_empty_rows_and_tables() {
    let mut t = Table::new(vec![]);
    t.calc_height_and_width();
    let back = Table::from_json(&t.to_json()).unwrap();
    assert_eq!(back.rows.len(), 0);

    let mut r = Row::new(vec![]);
    r.calc_height_and_width();
    let mut t2 = Table::new(vec![r]);
    t2.calc_height_and_width();
    let back2 = Table::from_json(&t2.to_json()).unwrap();
    assert_eq!(back2.rows.len(), 1);
    assert_eq!(back2.rows[0].cells.len(), 0);
}

#[test]
fn output_is_valid_json_with_documented_fields() {
    let t = sample_table();
    let text = t.to_json();
    let v: serde_json::Value = serde_json::from_str(&text).unwrap();
    assert_eq!(v["height_of_table"], serde_json::Value::from(60u64));
    assert_eq!(v["width_of_table"], serde_json::Value::from(85u64));
    let rows = v["rows"].as_array().unwrap();
    assert_eq!(rows.len(), 2);
    assert_eq!(rows[0]["height_of_row"], serde_json::Value::from(40u64));
    let cells = rows[0]["cells"].as_array().unwrap();
    assert_eq!(cells[0]["value"], serde_json::Value::from("17"));
    assert_eq!(cells[0]["height_of_cell"], serde_json::Value::from(10u64));
    assert_eq!(cells[0]["width_of_cell"], serde_json::Value::from(30u64));
}

#[test]
fn non_canonical_input_is_rejected() {
    assert!(Table::from_json("").is_none());
    assert!(Table::from_json("{}").is_none());
    assert!(Table::from_json("{\"rows\":[]").is_none());
    assert!(Table::from_json("{\"rows\":[],\"height_of_table\":0,\"width_of_table\":0}x").is_none());
    // a number that does not fit in u16 is rejected
    assert!(Table::from_json("{\"rows\":[],\"height_of_table\":65536,\"width_of_table\":0}").is_none());
}
