//! Turns a directory of scanned pages into the entries of a comic book
//! archive: finds the pictures, trims, cuts and resizes their pages, puts
//! them into reading order and names them.

pub mod codec;
pub mod config;
pub mod convert;
pub mod digits;
pub mod error;
pub mod margin;
pub mod mode;
pub mod order;
pub mod page;
pub mod pipeline;
pub mod raster;
pub mod resize;
pub mod source;
pub mod split;

pub use crate::pipeline::run;
