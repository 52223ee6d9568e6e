//! A single-file store of employee records kept as CSV text.
//!
//! The library decides everything that can be decided from values: whether a
//! store path is usable, how a record becomes a CSV row and back, and which
//! records a query returns. Reading and writing the file itself is left to
//! the caller, which hands the library the bytes it read and writes the bytes
//! the library produced.

pub mod age;
pub mod path;
pub mod query;
pub mod record;
pub mod store;

pub use age::parse_age;
pub use path::{check_file_exists, FileError};
pub use record::{Employee, EmployeeView};
pub use store::{read_rows, record_row, store_header, CsvRows};
pub use query::{list, query, search, Predicate, QueryError, QueryOutcome};
