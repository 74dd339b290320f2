//! Canonical JSON encoding of a `Table`, and the parser that inverts it.
//!
//! The wire shape is the documented one:
//! `{"rows":[{"cells":[{"height_of_cell":H,"width_of_cell":W,"value":"V"},..],
//! "height_of_row":H,"width_of_row":W},..],"height_of_table":H,
//! "width_of_table":W}` with no whitespace.  Numbers are decimal; in a value
//! string the quote, the backslash and the control characters are written as
//! `\u00XX` escapes and every other character stands for itself.  The parser
//! accepts exactly this canonical form, and parsing a serialized table
//! reconstructs every dimension and every value text.

use crate::table::Cell;
use crate::table::Row;
use crate::table::Table;
use vstd::prelude::*;
use vstd::std_specs::iter::IteratorSpec;

verus! {

// ---------------------------------------------------------------------------
// Parsed shapes: the plain data carried by the wire format.
// ---------------------------------------------------------------------------

/// The data of one parsed cell.
pub struct CellData {
    pub height: u16,
    pub width: u16,
    pub value: Seq<char>,
}

/// The data of one parsed row.
pub struct RowData {
    pub cells: Seq<CellData>,
    pub height: u16,
    pub width: u16,
}

/// The data of a parsed table.
pub struct TableData {
    pub rows: Seq<RowData>,
    pub height: u16,
    pub width: u16,
}

/// The data a cell carries on the wire.
pub open spec fn data_of_cell(c: Cell) -> CellData {
    CellData { height: c.height_of_cell, width: c.width_of_cell, value: c.value@ }
}

/// The data a row carries on the wire.
pub open spec fn data_of_row(r: Row) -> RowData {
    RowData {
        cells: Seq::new(r.cells@.len(), |i: int| data_of_cell(r.cells@[i])),
        height: r.height_of_row,
        width: r.width_of_row,
    }
}

/// The data a table carries on the wire.
pub open spec fn data_of_table(t: Table) -> TableData {
    TableData {
        rows: Seq::new(t.rows@.len(), |i: int| data_of_row(t.rows@[i])),
        height: t.height_of_table,
        width: t.width_of_table,
    }
}

/// The cell holds exactly the parsed data.
pub open spec fn cell_matches(c: Cell, d: CellData) -> bool {
    &&& c.height_of_cell == d.height
    &&& c.width_of_cell == d.width
    &&& c.value@ == d.value
}

/// The row holds exactly the parsed data.
pub open spec fn row_matches(r: Row, d: RowData) -> bool {
    &&& r.height_of_row == d.height
    &&& r.width_of_row == d.width
    &&& r.cells@.len() == d.cells.len()
    &&& forall|i: int| 0 <= i < d.cells.len() ==> cell_matches(#[trigger] r.cells@[i], d.cells[i])
}

/// The table holds exactly the parsed data.
pub open spec fn table_matches(t: Table, d: TableData) -> bool {
    &&& t.height_of_table == d.height
    &&& t.width_of_table == d.width
    &&& t.rows@.len() == d.rows.len()
    &&& forall|i: int| 0 <= i < d.rows.len() ==> row_matches(#[trigger] t.rows@[i], d.rows[i])
}

// ---------------------------------------------------------------------------
// The fixed pieces of the wire format.
// ---------------------------------------------------------------------------

/// `{"height_of_cell":`
pub open spec fn lit_cell_open() -> Seq<char> {
    seq!['{', '"', 'h', 'e', 'i', 'g', 'h', 't', '_', 'o', 'f', '_', 'c', 'e', 'l', 'l', '"', ':']
}

/// `,"width_of_cell":`
pub open spec fn lit_cell_width() -> Seq<char> {
    seq![',', '"', 'w', 'i', 'd', 't', 'h', '_', 'o', 'f', '_', 'c', 'e', 'l', 'l', '"', ':']
}

/// `,"value":"`
pub open spec fn lit_cell_value() -> Seq<char> {
    seq![',', '"', 'v', 'a', 'l', 'u', 'e', '"', ':', '"']
}

/// `"}`
pub open spec fn lit_cell_close() -> Seq<char> {
    seq!['"', '}']
}

/// `{"cells":[`
pub open spec fn lit_row_open() -> Seq<char> {
    seq!['{', '"', 'c', 'e', 'l', 'l', 's', '"', ':', '[']
}

/// `],"height_of_row":`
pub open spec fn lit_row_height() -> Seq<char> {
    seq![']', ',', '"', 'h', 'e', 'i', 'g', 'h', 't', '_', 'o', 'f', '_', 'r', 'o', 'w', '"', ':']
}

/// `,"width_of_row":`
pub open spec fn lit_row_width() -> Seq<char> {
    seq![',', '"', 'w', 'i', 'd', 't', 'h', '_', 'o', 'f', '_', 'r', 'o', 'w', '"', ':']
}

/// `{"rows":[`
pub open spec fn lit_table_open() -> Seq<char> {
    seq!['{', '"', 'r', 'o', 'w', 's', '"', ':', '[']
}

/// `],"height_of_table":`
pub open spec fn lit_table_height() -> Seq<char> {
    seq![
        ']', ',', '"', 'h', 'e', 'i', 'g', 'h', 't', '_', 'o', 'f', '_', 't', 'a', 'b', 'l', 'e',
        '"', ':',
    ]
}

/// `,"width_of_table":`
pub open spec fn lit_table_width() -> Seq<char> {
    seq![',', '"', 'w', 'i', 'd', 't', 'h', '_', 'o', 'f', '_', 't', 'a', 'b', 'l', 'e', '"', ':']
}

/// `}`
pub open spec fn lit_brace_close() -> Seq<char> {
    seq!['}']
}

// ---------------------------------------------------------------------------
// Characters: digits, hex digits, escapes.
// ---------------------------------------------------------------------------

/// The decimal digit `d` as a character, for `0 <= d <= 9`.
pub open spec fn digit_char(d: int) -> char {
    if d == 0 { '0' } else if d == 1 { '1' } else if d == 2 { '2' } else if d == 3 { '3' }
    else if d == 4 { '4' } else if d == 5 { '5' } else if d == 6 { '6' } else if d == 7 { '7' }
    else if d == 8 { '8' } else { '9' }
}

/// The hex digit `d` as a lower-case character, for `0 <= d <= 15`.
pub open spec fn hex_char(d: int) -> char {
    if d < 10 { digit_char(d) } else if d == 10 { 'a' } else if d == 11 { 'b' }
    else if d == 12 { 'c' } else if d == 13 { 'd' } else if d == 14 { 'e' } else { 'f' }
}

/// Is `c` a decimal digit?
pub open spec fn is_digit(c: char) -> bool {
    48 <= c as int <= 57
}

/// The value of a decimal digit character.
pub open spec fn digit_val(c: char) -> int {
    c as int - 48
}

/// Is `c` a lower-case hex digit?
pub open spec fn is_hex(c: char) -> bool {
    is_digit(c) || (97 <= c as int <= 102)
}

/// The value of a lower-case hex digit character.
pub open spec fn hex_val(c: char) -> int {
    if is_digit(c) {
        digit_val(c)
    } else {
        c as int - 87
    }
}

/// Characters that are escaped in a value string: the quote, the backslash
/// and the control characters.
pub open spec fn needs_escape(c: char) -> bool {
    c == '"' || c == '\\' || (c as int) < 0x20
}

/// A code that one of the escaped characters has.
pub open spec fn escapable_code(n: int) -> bool {
    0 <= n < 0x20 || n == 0x22 || n == 0x5c
}

/// The decimal digits of `n`, most significant first.
pub open spec fn dec_digits(n: int) -> Seq<char>
    decreases n,
{
    if n < 10 {
        seq![digit_char(n)]
    } else {
        dec_digits(n / 10).push(digit_char(n % 10))
    }
}

/// How one character is written inside a value string.
pub open spec fn esc_char(c: char) -> Seq<char> {
    if needs_escape(c) {
        seq!['\\', 'u', '0', '0', hex_char((c as int) / 16), hex_char((c as int) % 16)]
    } else {
        seq![c]
    }
}

/// How a whole value text is written inside a value string.
pub open spec fn esc_chars(s: Seq<char>) -> Seq<char>
    decreases s.len(),
{
    if s.len() == 0 {
        Seq::<char>::empty()
    } else {
        esc_char(s[0]) + esc_chars(s.drop_first())
    }
}

// ---------------------------------------------------------------------------
// The serialized form.
// ---------------------------------------------------------------------------

/// The serialized form of one cell.
pub open spec fn ser_cell(c: Cell) -> Seq<char> {
    lit_cell_open() + dec_digits(c.height_of_cell as int) + lit_cell_width() + dec_digits(
        c.width_of_cell as int,
    ) + lit_cell_value() + esc_chars(c.value@) + lit_cell_close()
}

/// The serialized form of a comma-separated non-empty cell list.
pub open spec fn ser_cells(cells: Seq<Cell>) -> Seq<char>
    decreases cells.len(),
{
    if cells.len() == 0 {
        Seq::<char>::empty()
    } else if cells.len() == 1 {
        ser_cell(cells[0])
    } else {
        ser_cell(cells[0]) + seq![','] + ser_cells(cells.drop_first())
    }
}

/// The serialized form of one row.
pub open spec fn ser_row(r: Row) -> Seq<char> {
    lit_row_open() + ser_cells(r.cells@) + lit_row_height() + dec_digits(r.height_of_row as int)
        + lit_row_width() + dec_digits(r.width_of_row as int) + lit_brace_close()
}

/// The serialized form of a comma-separated non-empty row list.
pub open spec fn ser_rows(rows: Seq<Row>) -> Seq<char>
    decreases rows.len(),
{
    if rows.len() == 0 {
        Seq::<char>::empty()
    } else if rows.len() == 1 {
        ser_row(rows[0])
    } else {
        ser_row(rows[0]) + seq![','] + ser_rows(rows.drop_first())
    }
}

/// The serialized form of the whole table.
pub open spec fn ser_table(t: Table) -> Seq<char> {
    lit_table_open() + ser_rows(t.rows@) + lit_table_height() + dec_digits(
        t.height_of_table as int,
    ) + lit_table_width() + dec_digits(t.width_of_table as int) + lit_brace_close()
}

// ---------------------------------------------------------------------------
// The parser, as a mathematical function.  Each piece consumes a prefix of
// its input and returns what remains.
// ---------------------------------------------------------------------------

/// Does `s` start with `pre`?
pub open spec fn starts_with(s: Seq<char>, pre: Seq<char>) -> bool {
    s.len() >= pre.len() && s.take(pre.len() as int) == pre
}

/// Consume the exact literal `pre`.
pub open spec fn sp_lit(s: Seq<char>, pre: Seq<char>) -> Option<Seq<char>> {
    if starts_with(s, pre) {
        Some(s.skip(pre.len() as int))
    } else {
        None
    }
}

/// Consume further digits, accumulating onto `acc`; a number above
/// `u16::MAX` is rejected.
pub open spec fn sp_num_loop(s: Seq<char>, acc: int) -> Option<(int, Seq<char>)>
    decreases s.len(),
{
    if s.len() > 0 && is_digit(s[0]) {
        let a2 = acc * 10 + digit_val(s[0]);
        if a2 > 0xffff {
            None
        } else {
            sp_num_loop(s.drop_first(), a2)
        }
    } else {
        Some((acc, s))
    }
}

/// Consume a decimal number that fits in `u16`.
pub open spec fn sp_u16(s: Seq<char>) -> Option<(u16, Seq<char>)> {
    if s.len() > 0 && is_digit(s[0]) {
        match sp_num_loop(s, 0) {
            Some(vr) => Some((vr.0 as u16, vr.1)),
            None => None,
        }
    } else {
        None
    }
}

/// Consume the body of a value string up to and including the closing quote,
/// undoing the `\u00XX` escapes.
pub open spec fn sp_value(s: Seq<char>) -> Option<(Seq<char>, Seq<char>)>
    decreases s.len(),
{
    if s.len() == 0 {
        None
    } else if s[0] == '"' {
        Some((Seq::<char>::empty(), s.drop_first()))
    } else if s[0] == '\\' {
        if s.len() >= 6 && s[1] == 'u' && s[2] == '0' && s[3] == '0' && is_hex(s[4]) && is_hex(s[5])
            && escapable_code(16 * hex_val(s[4]) + hex_val(s[5])) {
            match sp_value(s.skip(6)) {
                Some(vr) => Some(
                    (seq![((16 * hex_val(s[4]) + hex_val(s[5])) as char)] + vr.0, vr.1),
                ),
                None => None,
            }
        } else {
            None
        }
    } else {
        match sp_value(s.drop_first()) {
            Some(vr) => Some((seq![s[0]] + vr.0, vr.1)),
            None => None,
        }
    }
}

/// Consume one cell object.
pub open spec fn sp_cell(s: Seq<char>) -> Option<(CellData, Seq<char>)> {
    match sp_lit(s, lit_cell_open()) {
        None => None,
        Some(s1) => match sp_u16(s1) {
            None => None,
            Some(h) => match sp_lit(h.1, lit_cell_width()) {
                None => None,
                Some(s3) => match sp_u16(s3) {
                    None => None,
                    Some(w) => match sp_lit(w.1, lit_cell_value()) {
                        None => None,
                        Some(s5) => match sp_value(s5) {
                            None => None,
                            Some(v) => match sp_lit(v.1, lit_brace_close()) {
                                None => None,
                                Some(s7) => Some(
                                    (CellData { height: h.0, width: w.0, value: v.0 }, s7),
                                ),
                            },
                        },
                    },
                },
            },
        },
    }
}

/// Consume a non-empty comma-separated cell list.
pub open spec fn sp_cells(s: Seq<char>) -> Option<(Seq<CellData>, Seq<char>)>
    decreases s.len(),
{
    match sp_cell(s) {
        None => None,
        Some(cr) => {
            if cr.1.len() >= s.len() {
                // a cell always consumes at least one character
                None
            } else if cr.1.len() > 0 && cr.1[0] == ',' {
                match sp_cells(cr.1.skip(1)) {
                    Some(csr) => Some((seq![cr.0] + csr.0, csr.1)),
                    None => None,
                }
            } else {
                Some((seq![cr.0], cr.1))
            }
        },
    }
}

/// Consume a possibly empty cell list; `]` right away means it is empty.
pub open spec fn sp_cell_list(s: Seq<char>) -> Option<(Seq<CellData>, Seq<char>)> {
    if s.len() > 0 && s[0] == ']' {
        Some((Seq::<CellData>::empty(), s))
    } else {
        sp_cells(s)
    }
}

/// Consume one row object.
pub open spec fn sp_row(s: Seq<char>) -> Option<(RowData, Seq<char>)> {
    match sp_lit(s, lit_row_open()) {
        None => None,
        Some(s1) => match sp_cell_list(s1) {
            None => None,
            Some(cs) => match sp_lit(cs.1, lit_row_height()) {
                None => None,
                Some(s3) => match sp_u16(s3) {
                    None => None,
                    Some(h) => match sp_lit(h.1, lit_row_width()) {
                        None => None,
                        Some(s5) => match sp_u16(s5) {
                            None => None,
                            Some(w) => match sp_lit(w.1, lit_brace_close()) {
                                None => None,
                                Some(s7) => Some(
                                    (RowData { cells: cs.0, height: h.0, width: w.0 }, s7),
                                ),
                            },
                        },
                    },
                },
            },
        },
    }
}

/// Consume a non-empty comma-separated row list.
pub open spec fn sp_rows(s: Seq<char>) -> Option<(Seq<RowData>, Seq<char>)>
    decreases s.len(),
{
    match sp_row(s) {
        None => None,
        Some(rr) => {
            if rr.1.len() >= s.len() {
                // a row always consumes at least one character
                None
            } else if rr.1.len() > 0 && rr.1[0] == ',' {
                match sp_rows(rr.1.skip(1)) {
                    Some(rsr) => Some((seq![rr.0] + rsr.0, rsr.1)),
                    None => None,
                }
            } else {
                Some((seq![rr.0], rr.1))
            }
        },
    }
}

/// Consume a possibly empty row list; `]` right away means it is empty.
pub open spec fn sp_row_list(s: Seq<char>) -> Option<(Seq<RowData>, Seq<char>)> {
    if s.len() > 0 && s[0] == ']' {
        Some((Seq::<RowData>::empty(), s))
    } else {
        sp_rows(s)
    }
}

/// Consume a whole table object.
pub open spec fn sp_table(s: Seq<char>) -> Option<(TableData, Seq<char>)> {
    match sp_lit(s, lit_table_open()) {
        None => None,
        Some(s1) => match sp_row_list(s1) {
            None => None,
            Some(rs) => match sp_lit(rs.1, lit_table_height()) {
                None => None,
                Some(s3) => match sp_u16(s3) {
                    None => None,
                    Some(h) => match sp_lit(h.1, lit_table_width()) {
                        None => None,
                        Some(s5) => match sp_u16(s5) {
                            None => None,
                            Some(w) => match sp_lit(w.1, lit_brace_close()) {
                                None => None,
                                Some(s7) => Some(
                                    (TableData { rows: rs.0, height: h.0, width: w.0 }, s7),
                                ),
                            },
                        },
                    },
                },
            },
        },
    }
}

/// What a whole document parses to: a table with nothing after it.
pub open spec fn sp_json(s: Seq<char>) -> Option<TableData> {
    match sp_table(s) {
        Some(tr) => if tr.1.len() == 0 {
            Some(tr.0)
        } else {
            None
        },
        None => None,
    }
}

// ---------------------------------------------------------------------------
// The round trip: parsing a serialized table yields exactly its data.
// ---------------------------------------------------------------------------

/// A literal at the head of the input is consumed exactly.
pub proof fn lemma_sp_lit_prefix(pre: Seq<char>, rest: Seq<char>)
    ensures
        sp_lit(pre + rest, pre) == Some(rest),
{
    assert((pre + rest).take(pre.len() as int) =~= pre);
    assert((pre + rest).skip(pre.len() as int) =~= rest);
}

/// `10` to the number of decimal digits of `n`.
pub open spec fn num_scale(n: int) -> int
    decreases n,
{
    if n < 10 {
        10
    } else {
        10 * num_scale(n / 10)
    }
}

/// The scale of a number is at least 10.
pub proof fn lemma_num_scale_pos(n: int)
    ensures
        num_scale(n) >= 10,
    decreases n,
{
    if n >= 10 {
        lemma_num_scale_pos(n / 10);
    }
}

/// The decimal expansion is non-empty and consists of digits.
pub proof fn lemma_dec_digits_are_digits(n: int)
    requires
        0 <= n,
    ensures
        dec_digits(n).len() >= 1,
        forall|i: int| 0 <= i < dec_digits(n).len() ==> is_digit(#[trigger] dec_digits(n)[i]),
    decreases n,
{
    if n < 10 {
        assert(is_digit(digit_char(n)));
    } else {
        lemma_dec_digits_are_digits(n / 10);
        assert(is_digit(digit_char(n % 10)));
    }
}

/// Reading the decimal digits of `n` onto an accumulator multiplies the
/// accumulator by the scale of `n` and adds `n`.
pub proof fn lemma_sp_num_of_digits(n: int, rest: Seq<char>, acc: int)
    requires
        0 <= n,
        0 <= acc,
        acc * num_scale(n) + n <= 0xffff,
    ensures
        sp_num_loop(dec_digits(n) + rest, acc) == sp_num_loop(rest, acc * num_scale(n) + n),
    decreases n,
{
    lemma_num_scale_pos(n);
    let s = dec_digits(n) + rest;
    if n < 10 {
        assert(s[0] == digit_char(n));
        assert(is_digit(digit_char(n)) && digit_val(digit_char(n)) == n);
        assert(s.drop_first() =~= rest);
    } else {
        let d = n % 10;
        let m = n / 10;
        lemma_num_scale_pos(m);
        assert(0 <= d < 10 && n == 10 * m + d && 0 <= m) by (nonlinear_arith)
            requires
                n >= 10,
                d == n % 10,
                m == n / 10,
        ;
        assert(s =~= dec_digits(m) + (seq![digit_char(d)] + rest));
        assert(acc * num_scale(m) + m <= 0xffff) by (nonlinear_arith)
            requires
                0 <= acc,
                num_scale(m) >= 10,
                num_scale(n) == 10 * num_scale(m),
                n == 10 * m + d,
                0 <= d < 10,
                0 <= m,
                acc * num_scale(n) + n <= 0xffff,
        ;
        lemma_sp_num_of_digits(m, seq![digit_char(d)] + rest, acc);
        let mid = acc * num_scale(m) + m;
        assert((seq![digit_char(d)] + rest)[0] == digit_char(d));
        assert(is_digit(digit_char(d)) && digit_val(digit_char(d)) == d);
        assert((seq![digit_char(d)] + rest).drop_first() =~= rest);
        assert(mid * 10 + d == acc * num_scale(n) + n) by (nonlinear_arith)
            requires
                mid == acc * num_scale(m) + m,
                num_scale(n) == 10 * num_scale(m),
                n == 10 * m + d,
        ;
    }
}

/// Parsing the printed digits of an in-range number, with a non-digit
/// behind them, yields exactly that number.
pub proof fn lemma_sp_u16_of_digits(n: int, rest: Seq<char>)
    requires
        0 <= n <= 0xffff,
        rest.len() > 0,
        !is_digit(rest[0]),
    ensures
        sp_u16(dec_digits(n) + rest) == Some((n as u16, rest)),
{
    lemma_dec_digits_are_digits(n);
    let s = dec_digits(n) + rest;
    assert(s[0] == dec_digits(n)[0]);
    lemma_num_scale_pos(n);
    lemma_sp_num_of_digits(n, rest, 0);
    assert(0 * num_scale(n) == 0) by (nonlinear_arith);
    assert(sp_num_loop(rest, n) == Some((n, rest)));
}

/// A character's integer value lies in the Unicode scalar range.
pub proof fn lemma_char_int_bounds(c: char)
    ensures
        0 <= c as int <= 0x10ffff,
{
}

/// A hex digit character reads back as its value.
pub proof fn lemma_hex_inverse(d: int)
    requires
        0 <= d < 16,
    ensures
        is_hex(hex_char(d)),
        hex_val(hex_char(d)) == d,
{
}

/// Parsing an escaped value text, with the closing quote behind it, yields
/// exactly that text, and consumes the quote.
pub proof fn lemma_sp_value_of_esc(v: Seq<char>, rest: Seq<char>)
    ensures
        sp_value(esc_chars(v) + (seq!['"'] + rest)) == Some((v, rest)),
    decreases v.len(),
{
    let s = esc_chars(v) + (seq!['"'] + rest);
    if v.len() == 0 {
        assert(s =~= seq!['"'] + rest);
        assert(s[0] == '"');
        assert(s.drop_first() =~= rest);
    } else {
        let c = v[0];
        let tail = esc_chars(v.drop_first()) + (seq!['"'] + rest);
        assert(s =~= esc_char(c) + tail);
        lemma_sp_value_of_esc(v.drop_first(), rest);
        if needs_escape(c) {
            let cu = c as int;
            lemma_char_int_bounds(c);
            assert(0 <= cu <= 0x5c);
            assert(s[0] == '\\' && s[1] == 'u' && s[2] == '0' && s[3] == '0');
            assert(s[4] == hex_char(cu / 16) && s[5] == hex_char(cu % 16));
            assert(0 <= cu / 16 < 16 && 0 <= cu % 16 < 16);
            lemma_hex_inverse(cu / 16);
            lemma_hex_inverse(cu % 16);
            assert(16 * (cu / 16) + cu % 16 == cu);
            assert(escapable_code(cu));
            assert((cu as char) == c);
            assert(s.skip(6) =~= tail);
            assert(seq![c] + v.drop_first() =~= v);
        } else {
            assert(s[0] == c);
            assert(c != '"' && c != '\\');
            assert(s.drop_first() =~= tail);
            assert(seq![c] + v.drop_first() =~= v);
        }
    }
}

/// Parsing a serialized cell consumes exactly it and yields its data.
#[verifier::rlimit(50)]
pub proof fn lemma_sp_cell_of_ser(c: Cell, rest: Seq<char>)
    ensures
        sp_cell(ser_cell(c) + rest) == Some((data_of_cell(c), rest)),
{
    let h = c.height_of_cell;
    let w = c.width_of_cell;
    let v = c.value@;
    let t6 = seq!['}'] + rest;
    let t5 = esc_chars(v) + (seq!['"'] + t6);
    let t4 = lit_cell_value() + t5;
    let t3 = dec_digits(w as int) + t4;
    let t2 = lit_cell_width() + t3;
    let t1 = dec_digits(h as int) + t2;
    assert(ser_cell(c) + rest =~= lit_cell_open() + t1);
    lemma_sp_lit_prefix(lit_cell_open(), t1);
    assert(t2[0] == ',');
    lemma_sp_u16_of_digits(h as int, t2);
    lemma_sp_lit_prefix(lit_cell_width(), t3);
    assert(t4[0] == ',');
    lemma_sp_u16_of_digits(w as int, t4);
    lemma_sp_lit_prefix(lit_cell_value(), t5);
    lemma_sp_value_of_esc(v, t6);
    assert(t6 =~= lit_brace_close() + rest);
    lemma_sp_lit_prefix(lit_brace_close(), rest);
}

/// Parsing a serialized non-empty cell list, with `]` behind it, yields the
/// data of the cells in order.
pub proof fn lemma_sp_cells_of_ser(cells: Seq<Cell>, rest: Seq<char>)
    requires
        cells.len() >= 1,
        rest.len() > 0,
        rest[0] == ']',
    ensures
        sp_cells(ser_cells(cells) + rest) == Some(
            (Seq::new(cells.len(), |i: int| data_of_cell(cells[i])), rest),
        ),
    decreases cells.len(),
{
    let s = ser_cells(cells) + rest;
    assert(lit_cell_open().len() == 18);
    if cells.len() == 1 {
        lemma_sp_cell_of_ser(cells[0], rest);
        assert(seq![data_of_cell(cells[0])] =~= Seq::new(
            cells.len(),
            |i: int| data_of_cell(cells[i]),
        ));
    } else {
        let tail = seq![','] + (ser_cells(cells.drop_first()) + rest);
        assert(s =~= ser_cell(cells[0]) + tail);
        lemma_sp_cell_of_ser(cells[0], tail);
        assert(tail[0] == ',');
        assert(tail.skip(1) =~= ser_cells(cells.drop_first()) + rest);
        lemma_sp_cells_of_ser(cells.drop_first(), rest);
        assert(seq![data_of_cell(cells[0])] + Seq::new(
            cells.drop_first().len(),
            |i: int| data_of_cell(cells.drop_first()[i]),
        ) =~= Seq::new(cells.len(), |i: int| data_of_cell(cells[i])));
    }
}

/// Parsing a serialized row consumes exactly it and yields its data.
#[verifier::rlimit(50)]
pub proof fn lemma_sp_row_of_ser(r: Row, rest: Seq<char>)
    ensures
        sp_row(ser_row(r) + rest) == Some((data_of_row(r), rest)),
{
    let h = r.height_of_row;
    let w = r.width_of_row;
    let t6 = rest;
    let t5 = dec_digits(w as int) + (lit_brace_close() + t6);
    let t4 = lit_row_width() + t5;
    let t3 = dec_digits(h as int) + t4;
    let t2 = lit_row_height() + t3;
    let t1 = ser_cells(r.cells@) + t2;
    assert(ser_row(r) + rest =~= lit_row_open() + t1);
    lemma_sp_lit_prefix(lit_row_open(), t1);
    assert(t2[0] == ']');
    if r.cells@.len() == 0 {
        assert(t1 =~= t2);
        assert(t1.len() > 0 && t1[0] == ']');
        assert(sp_cell_list(t1) == Some((Seq::<CellData>::empty(), t1)));
        assert(Seq::<CellData>::empty() =~= data_of_row(r).cells);
    } else {
        assert(t1[0] == '{');
        lemma_sp_cells_of_ser(r.cells@, t2);
        assert(data_of_row(r).cells =~= Seq::new(
            r.cells@.len(),
            |i: int| data_of_cell(r.cells@[i]),
        ));
    }
    lemma_sp_lit_prefix(lit_row_height(), t3);
    assert(t4[0] == ',');
    lemma_sp_u16_of_digits(h as int, t4);
    lemma_sp_lit_prefix(lit_row_width(), t5);
    assert((lit_brace_close() + t6)[0] == '}');
    lemma_sp_u16_of_digits(w as int, lit_brace_close() + t6);
    lemma_sp_lit_prefix(lit_brace_close(), t6);
}

/// Parsing a serialized non-empty row list, with `]` behind it, yields the
/// data of the rows in order.
pub proof fn lemma_sp_rows_of_ser(rows: Seq<Row>, rest: Seq<char>)
    requires
        rows.len() >= 1,
        rest.len() > 0,
        rest[0] == ']',
    ensures
        sp_rows(ser_rows(rows) + rest) == Some(
            (Seq::new(rows.len(), |i: int| data_of_row(rows[i])), rest),
        ),
    decreases rows.len(),
{
    let s = ser_rows(rows) + rest;
    assert(lit_row_open().len() == 10);
    if rows.len() == 1 {
        lemma_sp_row_of_ser(rows[0], rest);
        assert(seq![data_of_row(rows[0])] =~= Seq::new(
            rows.len(),
            |i: int| data_of_row(rows[i]),
        ));
    } else {
        let tail = seq![','] + (ser_rows(rows.drop_first()) + rest);
        assert(s =~= ser_row(rows[0]) + tail);
        lemma_sp_row_of_ser(rows[0], tail);
        assert(tail[0] == ',');
        assert(tail.skip(1) =~= ser_rows(rows.drop_first()) + rest);
        lemma_sp_rows_of_ser(rows.drop_first(), rest);
        assert(seq![data_of_row(rows[0])] + Seq::new(
            rows.drop_first().len(),
            |i: int| data_of_row(rows.drop_first()[i]),
        ) =~= Seq::new(rows.len(), |i: int| data_of_row(rows[i])));
    }
}

/// Parsing a serialized table consumes exactly it and yields its data.
#[verifier::rlimit(50)]
pub proof fn lemma_sp_table_of_ser(t: Table, rest: Seq<char>)
    ensures
        sp_table(ser_table(t) + rest) == Some((data_of_table(t), rest)),
{
    let h = t.height_of_table;
    let w = t.width_of_table;
    let t6 = rest;
    let t5 = dec_digits(w as int) + (lit_brace_close() + t6);
    let t4 = lit_table_width() + t5;
    let t3 = dec_digits(h as int) + t4;
    let t2 = lit_table_height() + t3;
    let t1 = ser_rows(t.rows@) + t2;
    assert(ser_table(t) + rest =~= lit_table_open() + t1);
    lemma_sp_lit_prefix(lit_table_open(), t1);
    assert(t2[0] == ']');
    if t.rows@.len() == 0 {
        assert(t1 =~= t2);
        assert(t1.len() > 0 && t1[0] == ']');
        assert(sp_row_list(t1) == Some((Seq::<RowData>::empty(), t1)));
        assert(Seq::<RowData>::empty() =~= data_of_table(t).rows);
    } else {
        assert(t1[0] == '{');
        lemma_sp_rows_of_ser(t.rows@, t2);
        assert(data_of_table(t).rows =~= Seq::new(
            t.rows@.len(),
            |i: int| data_of_row(t.rows@[i]),
        ));
    }
    lemma_sp_lit_prefix(lit_table_height(), t3);
    assert(t4[0] == ',');
    lemma_sp_u16_of_digits(h as int, t4);
    lemma_sp_lit_prefix(lit_table_width(), t5);
    assert((lit_brace_close() + t6)[0] == '}');
    lemma_sp_u16_of_digits(w as int, lit_brace_close() + t6);
    lemma_sp_lit_prefix(lit_brace_close(), t6);
}

/// The round trip: a serialized table parses back to exactly the dimensions
/// and value texts it was serialized from.
pub proof fn lemma_json_round_trip(t: Table)
    ensures
        sp_json(ser_table(t)) == Some(data_of_table(t)),
{
    lemma_sp_table_of_ser(t, Seq::<char>::empty());
    assert(ser_table(t) + Seq::<char>::empty() =~= ser_table(t));
}

// ---------------------------------------------------------------------------
// The executable serializer.
// ---------------------------------------------------------------------------

/// The characters of `s`, in order.
#[verifier::loop_isolation(false)]
fn str_chars_vec(s: &str) -> (v: Vec<char>)
    ensures
        v@ == s@,
{
    broadcast use vstd::string::axiom_spec_iter, vstd::string::next_postcondition;

    let mut it = s.chars();
    let mut v: Vec<char> = Vec::new();
    loop
        invariant
            it.obeys_prophetic_iter_laws(),
            it.decrease() is Some,
            v@ + it.remaining() == s@,
        decreases it.decrease()->0,
    {
        match it.next() {
            Some(c) => {
                v.push(c);
                proof {
                    assert(v@ + it.remaining() =~= s@);
                }
            },
            None => {
                proof {
                    assert(v@ =~= s@);
                }
                return v;
            },
        }
    }
}

/// Relies on `String` implementing `FromIterator<char>`: collecting
/// characters yields the string of exactly those characters.
#[verifier::external_body]
fn string_from_chars(v: &Vec<char>) -> (s: String)
    ensures
        s@ == v@,
{
    v.iter().collect()
}

/// Appends all of `src` onto `out`.
#[verifier::loop_isolation(false)]
fn append_chars(out: &mut Vec<char>, src: &Vec<char>)
    ensures
        final(out)@ == old(out)@ + src@,
{
    let n = src.len();
    let mut i: usize = 0;
    while i < n
        invariant
            i <= n,
            out@ == old(out)@ + src@.take(i as int),
        decreases n - i,
    {
        out.push(src[i]);
        proof {
            assert(old(out)@ + src@.take(i as int) + seq![src@[i as int]] =~= old(out)@
                + src@.take(i + 1));
        }
        i = i + 1;
    }
    proof {
        assert(src@.take(n as int) =~= src@);
    }
}

/// The decimal digit `d` as a character.
fn digit_of(d: u32) -> (c: char)
    requires
        d < 10,
    ensures
        c == digit_char(d as int),
{
    match d {
        0 => '0',
        1 => '1',
        2 => '2',
        3 => '3',
        4 => '4',
        5 => '5',
        6 => '6',
        7 => '7',
        8 => '8',
        _ => '9',
    }
}

/// The hex digit `d` as a lower-case character.
fn hex_of(d: u32) -> (c: char)
    requires
        d < 16,
    ensures
        c == hex_char(d as int),
{
    match d {
        10 => 'a',
        11 => 'b',
        12 => 'c',
        13 => 'd',
        14 => 'e',
        15 => 'f',
        _ => digit_of(d),
    }
}

/// Appends the decimal digits of `n`.
fn push_u16(out: &mut Vec<char>, n: u16)
    ensures
        final(out)@ == old(out)@ + dec_digits(n as int),
    decreases n,
{
    if n < 10 {
        out.push(digit_of(n as u32));
        proof {
            assert(old(out)@.push(digit_char(n as int)) =~= old(out)@ + dec_digits(n as int));
        }
    } else {
        push_u16(out, n / 10);
        out.push(digit_of((n % 10) as u32));
        proof {
            assert((old(out)@ + dec_digits((n / 10) as int)).push(digit_char((n % 10) as int)) =~=
                old(out)@ + dec_digits(n as int));
        }
    }
}

/// Appending one more character extends the escaped text by its escape.
proof fn lemma_esc_chars_push(s: Seq<char>, x: char)
    ensures
        esc_chars(s.push(x)) == esc_chars(s) + esc_char(x),
    decreases s.len(),
{
    if s.len() == 0 {
        assert(s.push(x).drop_first() =~= Seq::<char>::empty());
        assert(s.push(x)[0] == x);
        assert(esc_chars(Seq::<char>::empty()) == Seq::<char>::empty());
        assert(esc_chars(s.push(x)) =~= esc_char(x));
        assert(esc_chars(s) + esc_char(x) =~= esc_char(x));
    } else {
        assert(s.push(x).drop_first() =~= s.drop_first().push(x));
        assert(s.push(x)[0] == s[0]);
        lemma_esc_chars_push(s.drop_first(), x);
        assert(esc_char(s[0]) + (esc_chars(s.drop_first()) + esc_char(x)) =~= (esc_char(s[0])
            + esc_chars(s.drop_first())) + esc_char(x));
    }
}

/// Appends the escaped form of a value text.
#[verifier::loop_isolation(false)]
fn push_escaped(out: &mut Vec<char>, v: &Vec<char>)
    ensures
        final(out)@ == old(out)@ + esc_chars(v@),
{
    let n = v.len();
    let mut i: usize = 0;
    while i < n
        invariant
            i <= n,
            out@ == old(out)@ + esc_chars(v@.take(i as int)),
        decreases n - i,
    {
        let c = v[i];
        proof {
            lemma_char_int_bounds(c);
        }
        let cu = c as u32;
        if c == '"' || c == '\\' || cu < 0x20 {
            out.push('\\');
            out.push('u');
            out.push('0');
            out.push('0');
            out.push(hex_of(cu / 16));
            out.push(hex_of(cu % 16));
            proof {
                assert(needs_escape(c));
                assert(cu / 16 == (c as int) / 16 && cu % 16 == (c as int) % 16);
            }
        } else {
            out.push(c);
            proof {
                assert(!needs_escape(c));
            }
        }
        proof {
            lemma_esc_chars_push(v@.take(i as int), c);
            assert(v@.take(i + 1) =~= v@.take(i as int).push(c));
            assert(old(out)@ + esc_chars(v@.take(i as int)) + esc_char(c) =~= old(out)@
                + esc_chars(v@.take(i + 1)));
        }
        i = i + 1;
    }
    proof {
        assert(v@.take(n as int) =~= v@);
    }
}

/// `{"height_of_cell":` as a vector.
fn lit_vec_cell_open() -> (v: Vec<char>)
    ensures
        v@ == lit_cell_open(),
{
    let v = str_chars_vec("{\"height_of_cell\":");
    proof {
        reveal_strlit("{\"height_of_cell\":");
        assert(v@ =~= lit_cell_open());
    }
    v
}

/// `,"width_of_cell":` as a vector.
fn lit_vec_cell_width() -> (v: Vec<char>)
    ensures
        v@ == lit_cell_width(),
{
    let v = str_chars_vec(",\"width_of_cell\":");
    proof {
        reveal_strlit(",\"width_of_cell\":");
        assert(v@ =~= lit_cell_width());
    }
    v
}

/// `,"value":"` as a vector.
fn lit_vec_cell_value() -> (v: Vec<char>)
    ensures
        v@ == lit_cell_value(),
{
    let v = str_chars_vec(",\"value\":\"");
    proof {
        reveal_strlit(",\"value\":\"");
        assert(v@ =~= lit_cell_value());
    }
    v
}

/// `"}` as a vector.
fn lit_vec_cell_close() -> (v: Vec<char>)
    ensures
        v@ == lit_cell_close(),
{
    let v = str_chars_vec("\"}");
    proof {
        reveal_strlit("\"}");
        assert(v@ =~= lit_cell_close());
    }
    v
}

/// `{"cells":[` as a vector.
fn lit_vec_row_open() -> (v: Vec<char>)
    ensures
        v@ == lit_row_open(),
{
    let v = str_chars_vec("{\"cells\":[");
    proof {
        reveal_strlit("{\"cells\":[");
        assert(v@ =~= lit_row_open());
    }
    v
}

/// `],"height_of_row":` as a vector.
fn lit_vec_row_height() -> (v: Vec<char>)
    ensures
        v@ == lit_row_height(),
{
    let v = str_chars_vec("],\"height_of_row\":");
    proof {
        reveal_strlit("],\"height_of_row\":");
        assert(v@ =~= lit_row_height());
    }
    v
}

/// `,"width_of_row":` as a vector.
fn lit_vec_row_width() -> (v: Vec<char>)
    ensures
        v@ == lit_row_width(),
{
    let v = str_chars_vec(",\"width_of_row\":");
    proof {
        reveal_strlit(",\"width_of_row\":");
        assert(v@ =~= lit_row_width());
    }
    v
}

/// `{"rows":[` as a vector.
fn lit_vec_table_open() -> (v: Vec<char>)
    ensures
        v@ == lit_table_open(),
{
    let v = str_chars_vec("{\"rows\":[");
    proof {
        reveal_strlit("{\"rows\":[");
        assert(v@ =~= lit_table_open());
    }
    v
}

/// `],"height_of_table":` as a vector.
fn lit_vec_table_height() -> (v: Vec<char>)
    ensures
        v@ == lit_table_height(),
{
    let v = str_chars_vec("],\"height_of_table\":");
    proof {
        reveal_strlit("],\"height_of_table\":");
        assert(v@ =~= lit_table_height());
    }
    v
}

/// `,"width_of_table":` as a vector.
fn lit_vec_table_width() -> (v: Vec<char>)
    ensures
        v@ == lit_table_width(),
{
    let v = str_chars_vec(",\"width_of_table\":");
    proof {
        reveal_strlit(",\"width_of_table\":");
        assert(v@ =~= lit_table_width());
    }
    v
}

/// `}` as a vector.
fn lit_vec_brace_close() -> (v: Vec<char>)
    ensures
        v@ == lit_brace_close(),
{
    let v = str_chars_vec("}");
    proof {
        reveal_strlit("}");
        assert(v@ =~= lit_brace_close());
    }
    v
}

/// Appends the serialized form of one cell.
fn push_cell_text(out: &mut Vec<char>, c: &Cell)
    ensures
        final(out)@ == old(out)@ + ser_cell(*c),
{
    let l1 = lit_vec_cell_open();
    append_chars(out, &l1);
    push_u16(out, c.height_of_cell);
    let l2 = lit_vec_cell_width();
    append_chars(out, &l2);
    push_u16(out, c.width_of_cell);
    let l3 = lit_vec_cell_value();
    append_chars(out, &l3);
    let vc = str_chars_vec(c.value.as_str());
    push_escaped(out, &vc);
    let l4 = lit_vec_cell_close();
    append_chars(out, &l4);
    proof {
        assert(out@ =~= old(out)@ + ser_cell(*c));
    }
}

/// Appending one more cell extends the list text by a separator (when the
/// list was not empty) and the cell's text.
proof fn lemma_ser_cells_push(s: Seq<Cell>, x: Cell)
    ensures
        ser_cells(s.push(x)) == if s.len() == 0 {
            ser_cell(x)
        } else {
            ser_cells(s) + seq![','] + ser_cell(x)
        },
    decreases s.len(),
{
    if s.len() == 0 {
        assert(s.push(x)[0] == x);
    } else {
        assert(s.push(x)[0] == s[0]);
        assert(s.push(x).drop_first() =~= s.drop_first().push(x));
        lemma_ser_cells_push(s.drop_first(), x);
        if s.len() > 1 {
            assert(ser_cell(s[0]) + seq![','] + (ser_cells(s.drop_first()) + seq![','] + ser_cell(
                x,
            )) =~= ser_cell(s[0]) + seq![','] + ser_cells(s.drop_first()) + seq![','] + ser_cell(
                x,
            ));
        }
    }
}

/// Appending one more row extends the list text in the same way.
proof fn lemma_ser_rows_push(s: Seq<Row>, x: Row)
    ensures
        ser_rows(s.push(x)) == if s.len() == 0 {
            ser_row(x)
        } else {
            ser_rows(s) + seq![','] + ser_row(x)
        },
    decreases s.len(),
{
    if s.len() == 0 {
        assert(s.push(x)[0] == x);
    } else {
        assert(s.push(x)[0] == s[0]);
        assert(s.push(x).drop_first() =~= s.drop_first().push(x));
        lemma_ser_rows_push(s.drop_first(), x);
        if s.len() > 1 {
            assert(ser_row(s[0]) + seq![','] + (ser_rows(s.drop_first()) + seq![','] + ser_row(x))
                =~= ser_row(s[0]) + seq![','] + ser_rows(s.drop_first()) + seq![','] + ser_row(x));
        }
    }
}

/// Appends the serialized form of a cell list.
#[verifier::loop_isolation(false)]
fn push_cells_text(out: &mut Vec<char>, cells: &Vec<Cell>)
    ensures
        final(out)@ == old(out)@ + ser_cells(cells@),
{
    let n = cells.len();
    let mut i: usize = 0;
    while i < n
        invariant
            i <= n,
            out@ == old(out)@ + ser_cells(cells@.take(i as int)),
        decreases n - i,
    {
        if i > 0 {
            out.push(',');
        }
        push_cell_text(out, &cells[i]);
        proof {
            lemma_ser_cells_push(cells@.take(i as int), cells@[i as int]);
            assert(cells@.take(i + 1) =~= cells@.take(i as int).push(cells@[i as int]));
            if i == 0 {
                assert(cells@.take(0) =~= Seq::<Cell>::empty());
                assert(ser_cells(Seq::<Cell>::empty()) == Seq::<char>::empty());
            }
            assert(out@ =~= old(out)@ + ser_cells(cells@.take(i + 1)));
        }
        i = i + 1;
    }
    proof {
        assert(cells@.take(n as int) =~= cells@);
    }
}

/// Appends the serialized form of one row.
fn push_row_text(out: &mut Vec<char>, r: &Row)
    ensures
        final(out)@ == old(out)@ + ser_row(*r),
{
    let l1 = lit_vec_row_open();
    append_chars(out, &l1);
    push_cells_text(out, &r.cells);
    let l2 = lit_vec_row_height();
    append_chars(out, &l2);
    push_u16(out, r.height_of_row);
    let l3 = lit_vec_row_width();
    append_chars(out, &l3);
    push_u16(out, r.width_of_row);
    let l4 = lit_vec_brace_close();
    append_chars(out, &l4);
    proof {
        assert(out@ =~= old(out)@ + ser_row(*r));
    }
}

/// Appends the serialized form of a row list.
#[verifier::loop_isolation(false)]
fn push_rows_text(out: &mut Vec<char>, rows: &Vec<Row>)
    ensures
        final(out)@ == old(out)@ + ser_rows(rows@),
{
    let n = rows.len();
    let mut i: usize = 0;
    while i < n
        invariant
            i <= n,
            out@ == old(out)@ + ser_rows(rows@.take(i as int)),
        decreases n - i,
    {
        if i > 0 {
            out.push(',');
        }
        push_row_text(out, &rows[i]);
        proof {
            lemma_ser_rows_push(rows@.take(i as int), rows@[i as int]);
            assert(rows@.take(i + 1) =~= rows@.take(i as int).push(rows@[i as int]));
            if i == 0 {
                assert(rows@.take(0) =~= Seq::<Row>::empty());
                assert(ser_rows(Seq::<Row>::empty()) == Seq::<char>::empty());
            }
            assert(out@ =~= old(out)@ + ser_rows(rows@.take(i + 1)));
        }
        i = i + 1;
    }
    proof {
        assert(rows@.take(n as int) =~= rows@);
    }
}

impl Table {
    /// The canonical JSON encoding of the table.
    pub fn to_json(&self) -> (s: String)
        ensures
            s@ == ser_table(*self),
    {
        let mut out: Vec<char> = Vec::new();
        let l1 = lit_vec_table_open();
        append_chars(&mut out, &l1);
        push_rows_text(&mut out, &self.rows);
        let l2 = lit_vec_table_height();
        append_chars(&mut out, &l2);
        push_u16(&mut out, self.height_of_table);
        let l3 = lit_vec_table_width();
        append_chars(&mut out, &l3);
        push_u16(&mut out, self.width_of_table);
        let l4 = lit_vec_brace_close();
        append_chars(&mut out, &l4);
        proof {
            assert(out@ =~= ser_table(*self));
        }
        string_from_chars(&out)
    }
}

// ---------------------------------------------------------------------------
// The executable parser.
// ---------------------------------------------------------------------------

/// The character with the given small code.
fn char_of_code(code: u32) -> (c: char)
    requires
        code < 0x5d,
    ensures
        c as int == code,
{
    let b = code as u8;
    b as char
}

/// Consumes the literal `lit` at position `i`, if it stands there.
#[verifier::loop_isolation(false)]
fn expect_lit(s: &Vec<char>, i: usize, lit: &Vec<char>) -> (r: Option<usize>)
    requires
        i <= s@.len(),
    ensures
        match sp_lit(s@.skip(i as int), lit@) {
            Some(rest) => r matches Some(j) && i <= j <= s@.len() && s@.skip(j as int) == rest,
            None => r is None,
        },
{
    let n = lit.len();
    if s.len() - i < n {
        proof {
            assert(s@.skip(i as int).len() < lit@.len());
        }
        return None;
    }
    let mut k: usize = 0;
    while k < n
        invariant
            k <= n,
            i + n <= s@.len(),
            forall|m: int| 0 <= m < k ==> s@[i + m] == lit@[m],
        decreases n - k,
    {
        if s[i + k] != lit[k] {
            proof {
                assert(s@.skip(i as int).take(n as int)[k as int] == s@[i + k]);
                assert(s@.skip(i as int).take(n as int) != lit@);
            }
            return None;
        }
        k = k + 1;
    }
    proof {
        assert(s@.skip(i as int).take(n as int) =~= lit@);
        assert(s@.skip(i as int).skip(n as int) =~= s@.skip(i + n));
    }
    Some(i + n)
}

/// Parses a decimal number that fits in `u16`.
#[verifier::loop_isolation(false)]
fn parse_u16(s: &Vec<char>, i: usize) -> (r: Option<(u16, usize)>)
    requires
        i <= s@.len(),
    ensures
        match sp_u16(s@.skip(i as int)) {
            Some(vr) => r matches Some(p) && p.0 == vr.0 && i <= p.1 <= s@.len() && s@.skip(
                p.1 as int,
            ) == vr.1,
            None => r is None,
        },
{
    let n = s.len();
    if i == n {
        return None;
    }
    let c0 = s[i];
    proof {
        lemma_char_int_bounds(c0);
        assert(s@.skip(i as int)[0] == s@[i as int]);
    }
    let cu0 = c0 as u32;
    if cu0 < 48 || cu0 > 57 {
        return None;
    }
    let mut j: usize = i;
    let mut acc: u32 = 0;
    loop
        invariant
            i <= j <= n,
            n == s@.len(),
            acc <= 0xffff,
            s@.skip(i as int).len() > 0,
            is_digit(s@.skip(i as int)[0]),
            sp_num_loop(s@.skip(i as int), 0) == sp_num_loop(s@.skip(j as int), acc as int),
        decreases n - j,
    {
        if j == n {
            proof {
                assert(s@.skip(j as int).len() == 0);
            }
            return Some((acc as u16, j));
        }
        let c = s[j];
        proof {
            lemma_char_int_bounds(c);
            assert(s@.skip(j as int)[0] == s@[j as int]);
        }
        let cu = c as u32;
        if cu < 48 || cu > 57 {
            return Some((acc as u16, j));
        }
        let a2 = acc * 10 + (cu - 48);
        if a2 > 0xffff {
            return None;
        }
        proof {
            assert(s@.skip(j as int).drop_first() =~= s@.skip(j + 1));
        }
        acc = a2;
        j = j + 1;
    }
}

/// Parses a value string body up to and including the closing quote.
#[verifier::loop_isolation(false)]
fn parse_value(s: &Vec<char>, i: usize) -> (r: Option<(Vec<char>, usize)>)
    requires
        i <= s@.len(),
    ensures
        match sp_value(s@.skip(i as int)) {
            Some(vr) => r matches Some(p) && p.0@ == vr.0 && i <= p.1 <= s@.len() && s@.skip(
                p.1 as int,
            ) == vr.1,
            None => r is None,
        },
{
    let n = s.len();
    let mut out: Vec<char> = Vec::new();
    let mut j: usize = i;
    loop
        invariant
            i <= j <= n,
            n == s@.len(),
            ({
                let whole = sp_value(s@.skip(i as int));
                match sp_value(s@.skip(j as int)) {
                    Some(vr) => whole == Some::<(Seq<char>, Seq<char>)>((out@ + vr.0, vr.1)),
                    None => whole is None,
                }
            }),
        decreases n - j,
    {
        if j == n {
            proof {
                assert(s@.skip(j as int).len() == 0);
            }
            return None;
        }
        let c = s[j];
        proof {
            lemma_char_int_bounds(c);
            assert(s@.skip(j as int)[0] == s@[j as int]);
        }
        if c == '"' {
            proof {
                assert(s@.skip(j as int).drop_first() =~= s@.skip(j + 1));
                assert(out@ + Seq::<char>::empty() =~= out@);
            }
            return Some((out, j + 1));
        } else if c == '\\' {
            if n - j < 6 {
                proof {
                    assert(s@.skip(j as int).len() < 6);
                }
                return None;
            }
            proof {
                assert(s@.skip(j as int)[1] == s@[j + 1]);
                assert(s@.skip(j as int)[2] == s@[j + 2]);
                assert(s@.skip(j as int)[3] == s@[j + 3]);
                assert(s@.skip(j as int)[4] == s@[j + 4]);
                assert(s@.skip(j as int)[5] == s@[j + 5]);
            }
            if s[j + 1] != 'u' || s[j + 2] != '0' || s[j + 3] != '0' {
                return None;
            }
            let c4 = s[j + 4];
            let c5 = s[j + 5];
            proof {
                lemma_char_int_bounds(c4);
                lemma_char_int_bounds(c5);
            }
            let u4 = c4 as u32;
            let u5 = c5 as u32;
            let d4 = if 48 <= u4 && u4 <= 57 {
                u4 - 48
            } else if 97 <= u4 && u4 <= 102 {
                u4 - 87
            } else {
                return None;
            };
            let d5 = if 48 <= u5 && u5 <= 57 {
                u5 - 48
            } else if 97 <= u5 && u5 <= 102 {
                u5 - 87
            } else {
                return None;
            };
            let code = 16 * d4 + d5;
            if !(code < 0x20 || code == 0x22 || code == 0x5c) {
                return None;
            }
            let ch = char_of_code(code);
            let ghost out0 = out@;
            out.push(ch);
            proof {
                assert(d4 == hex_val(s@.skip(j as int)[4]));
                assert(d5 == hex_val(s@.skip(j as int)[5]));
                assert(s@.skip(j as int).skip(6) =~= s@.skip(j + 6));
                let cc = (16 * hex_val(s@.skip(j as int)[4]) + hex_val(
                    s@.skip(j as int)[5],
                )) as char;
                assert(cc == ch);
                match sp_value(s@.skip(j + 6)) {
                    Some(vr) => {
                        assert(out0.push(ch) + vr.0 =~= out0 + (seq![cc] + vr.0));
                    },
                    None => {},
                }
            }
            j = j + 6;
        } else {
            let ghost out0 = out@;
            out.push(c);
            proof {
                assert(s@.skip(j as int).drop_first() =~= s@.skip(j + 1));
                match sp_value(s@.skip(j + 1)) {
                    Some(vr) => {
                        assert(out0.push(c) + vr.0 =~= out0 + (seq![c] + vr.0));
                    },
                    None => {},
                }
            }
            j = j + 1;
        }
    }
}

/// Parses one cell object.
fn parse_cell(s: &Vec<char>, i: usize) -> (r: Option<(Cell, usize)>)
    requires
        i <= s@.len(),
    ensures
        match sp_cell(s@.skip(i as int)) {
            Some(cr) => r matches Some(p) && cell_matches(p.0, cr.0) && i <= p.1 <= s@.len()
                && s@.skip(p.1 as int) == cr.1,
            None => r is None,
        },
{
    let l1 = lit_vec_cell_open();
    let j1 = match expect_lit(s, i, &l1) {
        Some(j) => j,
        None => {
            return None;
        },
    };
    let hp = match parse_u16(s, j1) {
        Some(p) => p,
        None => {
            return None;
        },
    };
    let l2 = lit_vec_cell_width();
    let j3 = match expect_lit(s, hp.1, &l2) {
        Some(j) => j,
        None => {
            return None;
        },
    };
    let wp = match parse_u16(s, j3) {
        Some(p) => p,
        None => {
            return None;
        },
    };
    let l3 = lit_vec_cell_value();
    let j5 = match expect_lit(s, wp.1, &l3) {
        Some(j) => j,
        None => {
            return None;
        },
    };
    let vp = match parse_value(s, j5) {
        Some(p) => p,
        None => {
            return None;
        },
    };
    let l4 = lit_vec_brace_close();
    let j7 = match expect_lit(s, vp.1, &l4) {
        Some(j) => j,
        None => {
            return None;
        },
    };
    let val = string_from_chars(&vp.0);
    Some((Cell { value: val, height_of_cell: hp.0, width_of_cell: wp.0 }, j7))
}

/// Parses a non-empty comma-separated cell list.
fn parse_cells(s: &Vec<char>, i: usize) -> (r: Option<(Vec<Cell>, usize)>)
    requires
        i <= s@.len(),
    ensures
        match sp_cells(s@.skip(i as int)) {
            Some(csr) => r matches Some(p) && p.0@.len() == csr.0.len() && (forall|k: int|
                0 <= k < csr.0.len() ==> cell_matches(#[trigger] p.0@[k], csr.0[k])) && i <= p.1
                <= s@.len() && s@.skip(p.1 as int) == csr.1,
            None => r is None,
        },
    decreases s@.len() - i,
{
    match parse_cell(s, i) {
        None => None,
        Some(cp) => {
            let c0 = cp.0;
            let j1 = cp.1;
            if j1 <= i {
                proof {
                    assert(s@.skip(j1 as int).len() >= s@.skip(i as int).len());
                }
                return None;
            }
            if j1 < s.len() && s[j1] == ',' {
                proof {
                    assert(s@.skip(j1 as int)[0] == s@[j1 as int]);
                    assert(s@.skip(j1 as int).skip(1) =~= s@.skip(j1 + 1));
                }
                match parse_cells(s, j1 + 1) {
                    None => None,
                    Some(csp) => {
                        let mut tail_cells = csp.0;
                        let mut cells: Vec<Cell> = Vec::new();
                        cells.push(c0);
                        cells.append(&mut tail_cells);
                        Some((cells, csp.1))
                    },
                }
            } else {
                proof {
                    if j1 < s@.len() {
                        assert(s@.skip(j1 as int)[0] == s@[j1 as int]);
                    }
                }
                let mut cells: Vec<Cell> = Vec::new();
                cells.push(c0);
                Some((cells, j1))
            }
        },
    }
}

/// Parses one row object.
fn parse_row(s: &Vec<char>, i: usize) -> (r: Option<(Row, usize)>)
    requires
        i <= s@.len(),
    ensures
        match sp_row(s@.skip(i as int)) {
            Some(rr) => r matches Some(p) && row_matches(p.0, rr.0) && i <= p.1 <= s@.len()
                && s@.skip(p.1 as int) == rr.1,
            None => r is None,
        },
{
    let l1 = lit_vec_row_open();
    let j1 = match expect_lit(s, i, &l1) {
        Some(j) => j,
        None => {
            return None;
        },
    };
    let empty_list = j1 < s.len() && s[j1] == ']';
    proof {
        if j1 < s@.len() {
            assert(s@.skip(j1 as int)[0] == s@[j1 as int]);
        }
    }
    let clp = if empty_list {
        (Vec::<Cell>::new(), j1)
    } else {
        match parse_cells(s, j1) {
            Some(p) => p,
            None => {
                return None;
            },
        }
    };
    let cells = clp.0;
    let j2 = clp.1;
    let l2 = lit_vec_row_height();
    let j3 = match expect_lit(s, j2, &l2) {
        Some(j) => j,
        None => {
            return None;
        },
    };
    let hp = match parse_u16(s, j3) {
        Some(p) => p,
        None => {
            return None;
        },
    };
    let l3 = lit_vec_row_width();
    let j5 = match expect_lit(s, hp.1, &l3) {
        Some(j) => j,
        None => {
            return None;
        },
    };
    let wp = match parse_u16(s, j5) {
        Some(p) => p,
        None => {
            return None;
        },
    };
    let l4 = lit_vec_brace_close();
    let j7 = match expect_lit(s, wp.1, &l4) {
        Some(j) => j,
        None => {
            return None;
        },
    };
    Some((Row { cells, height_of_row: hp.0, width_of_row: wp.0 }, j7))
}

/// Parses a non-empty comma-separated row list.
fn parse_rows(s: &Vec<char>, i: usize) -> (r: Option<(Vec<Row>, usize)>)
    requires
        i <= s@.len(),
    ensures
        match sp_rows(s@.skip(i as int)) {
            Some(rsr) => r matches Some(p) && p.0@.len() == rsr.0.len() && (forall|k: int|
                0 <= k < rsr.0.len() ==> row_matches(#[trigger] p.0@[k], rsr.0[k])) && i <= p.1
                <= s@.len() && s@.skip(p.1 as int) == rsr.1,
            None => r is None,
        },
    decreases s@.len() - i,
{
    match parse_row(s, i) {
        None => None,
        Some(rp) => {
            let r0 = rp.0;
            let j1 = rp.1;
            if j1 <= i {
                proof {
                    assert(s@.skip(j1 as int).len() >= s@.skip(i as int).len());
                }
                return None;
            }
            if j1 < s.len() && s[j1] == ',' {
                proof {
                    assert(s@.skip(j1 as int)[0] == s@[j1 as int]);
                    assert(s@.skip(j1 as int).skip(1) =~= s@.skip(j1 + 1));
                }
                match parse_rows(s, j1 + 1) {
                    None => None,
                    Some(rsp) => {
                        let mut tail_rows = rsp.0;
                        let mut rows: Vec<Row> = Vec::new();
                        rows.push(r0);
                        rows.append(&mut tail_rows);
                        Some((rows, rsp.1))
                    },
                }
            } else {
                proof {
                    if j1 < s@.len() {
                        assert(s@.skip(j1 as int)[0] == s@[j1 as int]);
                    }
                }
                let mut rows: Vec<Row> = Vec::new();
                rows.push(r0);
                Some((rows, j1))
            }
        },
    }
}

/// Parses a whole table object.
fn parse_table(s: &Vec<char>, i: usize) -> (r: Option<(Table, usize)>)
    requires
        i <= s@.len(),
    ensures
        match sp_table(s@.skip(i as int)) {
            Some(tr) => r matches Some(p) && table_matches(p.0, tr.0) && i <= p.1 <= s@.len()
                && s@.skip(p.1 as int) == tr.1,
            None => r is None,
        },
{
    let l1 = lit_vec_table_open();
    let j1 = match expect_lit(s, i, &l1) {
        Some(j) => j,
        None => {
            return None;
        },
    };
    let empty_list = j1 < s.len() && s[j1] == ']';
    proof {
        if j1 < s@.len() {
            assert(s@.skip(j1 as int)[0] == s@[j1 as int]);
        }
    }
    let rlp = if empty_list {
        (Vec::<Row>::new(), j1)
    } else {
        match parse_rows(s, j1) {
            Some(p) => p,
            None => {
                return None;
            },
        }
    };
    let rows = rlp.0;
    let j2 = rlp.1;
    let l2 = lit_vec_table_height();
    let j3 = match expect_lit(s, j2, &l2) {
        Some(j) => j,
        None => {
            return None;
        },
    };
    let hp = match parse_u16(s, j3) {
        Some(p) => p,
        None => {
            return None;
        },
    };
    let l3 = lit_vec_table_width();
    let j5 = match expect_lit(s, hp.1, &l3) {
        Some(j) => j,
        None => {
            return None;
        },
    };
    let wp = match parse_u16(s, j5) {
        Some(p) => p,
        None => {
            return None;
        },
    };
    let l4 = lit_vec_brace_close();
    let j7 = match expect_lit(s, wp.1, &l4) {
        Some(j) => j,
        None => {
            return None;
        },
    };
    Some((Table { rows, height_of_table: hp.0, width_of_table: wp.0 }, j7))
}

impl Table {
    /// Parses the canonical JSON encoding; `None` exactly when `s` is not
    /// the canonical encoding of any table.
    pub fn from_json(s: &str) -> (r: Option<Table>)
        ensures
            match sp_json(s@) {
                Some(td) => r matches Some(t) && table_matches(t, td),
                None => r is None,
            },
    {
        let v = str_chars_vec(s);
        proof {
            assert(v@.skip(0) =~= v@);
        }
        match parse_table(&v, 0) {
            None => None,
            Some(tp) => {
                if tp.1 == v.len() {
                    Some(tp.0)
                } else {
                    None
                }
            },
        }
    }
}

} // verus!
