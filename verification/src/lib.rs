//! Resolution of a Universal Spectrum Identifier (USI) against local
//! dataset directories.
//!
//! A USI names a dataset, a run (one data file inside the dataset), and a
//! single spectrum within that run.  The library holds the decision logic of
//! the resolver: mapping a locator to a reader position, ranking and
//! filtering candidate files inside a dataset directory, completing a
//! spectrum's peak list, stepping the search across an ordered list of
//! repository prefixes, and assembling the output record.  All filesystem
//! and file-format work is performed by the caller, which drives the search
//! state machine and reports each outcome back as an event.

pub mod enumerate;
pub mod ident;
pub mod output;
pub mod search;
pub mod spectrum;
