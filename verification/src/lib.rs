//! Renders delimiter-separated text as an aligned, box-drawn table.
//!
//! The library turns raw delimited text into a rectangular cell matrix
//! (`parse`), computes per-column display widths that account for wide and
//! zero-width glyphs (`width`), and produces the bordered rendering with a
//! row/column summary (`render`). Reading files and writing to the terminal
//! are left to the caller.

pub mod parse;
pub mod render;
pub mod text;
pub mod width;
