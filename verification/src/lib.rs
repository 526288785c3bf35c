//! Character-level text differencing on a reusable pair of dense grids.

pub mod difflib;
pub mod lines;
pub mod matrix;
pub mod model;
pub mod presenter;
pub mod theorems;
