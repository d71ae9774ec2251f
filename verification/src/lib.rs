//! Lossless recoding of matrix rows between a binary and a hexadecimal digit
//! form, with a bounded least-recently-used memo of the rows already seen.

pub mod cache;
pub mod codec;
pub mod driver;
pub mod line;
pub mod memo;
pub mod text;
pub mod transformer;
