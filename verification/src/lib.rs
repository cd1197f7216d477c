//! Ingestion of delimited text exports of measurement instruments into one table of columns.
//!
//! A source has one of three layouts: `wave` sweeps, `summary` dumps of parameters and
//! values, and `raw` tables. Each parser registers columns as it discovers them, decodes
//! every token with the magnitude-letter decoder of [`si`], and appends the decoded text to
//! the column it belongs to. The cells of a [`table::DataFrame`] are kept as the text of
//! decimal numbers; turning them into machine numbers is left to the caller.
//!
//! Every function states in its contract what it returns, over the mathematical models in
//! [`table`], [`text`] and the parser modules; [`laws`] holds what follows for all inputs.
pub mod export;
pub mod ingest;
pub mod laws;
pub mod options;
pub mod raw;
pub mod si;
pub mod source;
pub mod summary;
pub mod table;
pub mod text;
pub mod wave;
