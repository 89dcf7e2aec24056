//! A pipeline that reads line-oriented logs of several well-known formats and
//! turns each line into a structured entry, ready to be written out as JSON,
//! line-delimited JSON, CSV or TSV.

pub mod config;
pub mod level;
pub mod lines;
pub mod normalizer;
pub mod output;
pub mod parsers;
pub mod pipeline;
pub mod text;
