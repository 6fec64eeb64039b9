//! Reduces an image to a fixed palette: every pixel takes the color of its
//! nearest palette entry by Euclidean distance over red, green and blue, the
//! first entry in palette order winning a tie.

pub mod color;
pub mod palette;
pub mod matcher;
pub mod pixmap;
