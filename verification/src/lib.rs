//! Schema-free reading of delimited text.
//!
//! The first line that is not empty names the columns; each later line that
//! is not blank becomes a row that maps column names to values. The type of a
//! value is told from its text: integer, float or text. Nothing is an error:
//! a column without a name gets one made up from its position, and a blank
//! field simply has no entry in its row.

pub mod field;
pub mod header;
pub mod laws;
pub mod lines;
pub mod number;
pub mod parse;
pub mod record;
pub mod row;
pub mod text;
pub mod value;

pub use crate::field::{get_value_field, handle_new_key};
pub use crate::header::parse_header;
pub use crate::lines::Lines;
pub use crate::parse::parse_csv;
pub use crate::record::parse_value_line;
pub use crate::row::Row;
pub use crate::value::{parse_value, CsvValue};
