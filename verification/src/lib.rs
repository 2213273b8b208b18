//! The SQL function `substr` on arrow columns.
//!
//! `substr` takes a column of strings, a column of starts and, optionally, a
//! column of counts, and gives the column of substrings. `text` cuts single
//! strings, `strings` and `views` do so for the rows of the two kinds of string
//! columns, `dispatch` picks between them, and `func` describes the function to
//! a query engine. `column` and `builder` hold the calls into arrow, `error` the
//! ways to fail. `calls` states what each call gives, and `laws` what holds of the
//! function as a whole.
pub mod builder;
pub mod calls;
pub mod column;
pub mod dispatch;
pub mod error;
pub mod func;
pub mod laws;
pub mod strings;
pub mod text;
pub mod views;

pub use crate::column::{Column, DataType};
pub use crate::dispatch::{substr, try_substr};
pub use crate::error::SubstrError;
pub use crate::func::{Signature, SubstrFunc, Volatility};
pub use crate::text::get_true_start_count;
