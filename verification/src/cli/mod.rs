//! The formats in which metrics are written out.

pub mod formats;
