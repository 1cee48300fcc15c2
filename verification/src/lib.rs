//! Bit buffers, field paths, binary views and block iterators for a columnar
//! array format, with their behaviour stated and proved in Verus.

pub mod bits;
pub mod bit_buffer;
pub mod bit_buffer_mut;
pub mod binary_view;
pub mod field;
pub mod column;
pub mod accessor;
pub mod bitpacked;
pub mod project;
pub mod scan;
pub mod buffered;
pub mod filter;
pub mod once_cell;
pub mod parts;
pub mod owned;
pub mod streaming;
