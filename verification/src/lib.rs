//! A small tabular layout model: cells with fixed display dimensions are
//! grouped into rows, rows into a table, and the aggregate height/width of
//! each level is derived on demand from its children.  A canonical JSON
//! encoding of the table is provided, together with a parser that inverts it.
//! Two side modules hold the arithmetic of student grading and of interest,
//! both over exact integer ratios.

pub mod grades;
pub mod interest;
pub mod json;
pub mod table;
