//! The four file parsers of the decoder.

pub mod geo;
pub mod qal;
pub mod thf;
pub mod vec_records;
