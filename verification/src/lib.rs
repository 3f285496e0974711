//! A search engine for byte buffers, made to be run over the files of a
//! directory tree.
//!
//! A pattern is compiled once, into a literal matcher ([`kmp`]) or into an
//! automaton ([`automaton`]). A scan of one text yields the offsets of its
//! matches; [`lines`] turns each offset into a row and a column, [`preview`]
//! cuts what is shown of the matched line, and [`render`] writes the result
//! line. [`classify`] tells binary files from text by their extension,
//! [`config`] reads a command line, and [`pipeline`] ties the parts together
//! for one file.
//!
//! The library reads no file and prints nothing: a caller hands it bytes and
//! gets values back.

pub mod automaton;
pub mod classify;
pub mod config;
pub mod error;
pub mod kmp;
pub mod lines;
pub mod pipeline;
pub mod preview;
pub mod render;
