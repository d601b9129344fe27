//! Conversion of tabular data between delimited text, line-delimited typed
//! JSON documents and relational dump scripts.
//!
//! Every reader gives a [`Table`]: column names, and rows of raw field
//! strings. Every writer takes the column names and rows of [`Field`]s,
//! classifies each field, and writes it as its type asks:
//!
//! * [`classify`] decides the semantic type of a raw field;
//! * [`timestamp`] brings date-times into one canonical form and writes the
//!   two wire encodings of it;
//! * [`schema`] collects the columns of an input, the first value seen in a
//!   column deciding its type;
//! * [`dump`] recovers column names and rows from the text of a dump script;
//! * [`csv`], [`json`] and [`sql`] read and write the three formats.
//!
//! Verus proves every function of the crate against its contract: none
//! panics, and each returns what its `ensures` clause says. Three things are
//! taken on trust and marked where they stand: that `String::push` appends a
//! character, that a regular expression matches a text or does not,
//! and that the JSON parser is a function of the line that it is given.
//!
//! The crate holds no floating-point arithmetic. A number is written as the
//! numeral that the caller supplies with the field; see [`Field`]. A field
//! also carries its type where the reader found one, as the reader of typed
//! JSON documents does; where it carries none, its raw text decides.

pub mod classify;
pub mod csv;
pub mod document;
pub mod dump;
pub mod files;
pub mod json;
pub mod prescan;
pub mod render;
pub mod report;
pub mod schema;
pub mod sql;
pub mod table;
pub mod text;
pub mod timestamp;

pub use classify::{classify, TypeTag};
pub use csv::{read_csv, write_csv};
pub use document::Document;
pub use dump::{preprocess_sql, read_dump, read_dump_checked, read_dump_under, DumpError};
pub use json::{read_json, write_json, JsonStyle, ReadError};
pub use report::{enforce, find_issues, Issue, IssueKind, Policy};
pub use schema::{Column, ColumnType, Schema, SchemaBuilder};
pub use sql::{write_sql, Heading};
pub use table::{Field, Table};
pub use timestamp::{decode, encode, parse_date, parse_timestamp};
