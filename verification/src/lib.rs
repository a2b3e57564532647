//! Incremental, bounded-memory extraction of CSV rows from a request body
//! that arrives as a sequence of byte chunks of arbitrary size.
//!
//! The body is cut into lines at `\n`, `\r\n` and lone `\r`; every closed line
//! is decoded into one row of text fields, or skipped when it is blank. A hard
//! byte ceiling and, where the client announced one, the declared length are
//! enforced before a chunk is looked at.

pub mod admission;
pub mod budget;
pub mod carry;
pub mod decode;
pub mod error;
pub mod extract;
pub mod laws;
pub mod lines;

pub use crate::decode::Decoded;
pub use crate::error::CsvExtractError;
pub use crate::extract::{Csv, CsvExtractFut, Event, Step};
