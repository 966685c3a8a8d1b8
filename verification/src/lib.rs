//! Renders a grayscale raster image as text made of Unicode Braille glyphs.
//!
//! The pipeline has three stages: a binarizer turns a grayscale pixel
//! buffer into a boolean matrix given a luminance threshold; a cell packer
//! partitions the matrix into 2-column by 4-row blocks and packs each block
//! into an 8-bit dot mask; a glyph mapper turns each mask into a character
//! in the Braille block (U+2800 to U+28FF) and assembles the output lines.

pub mod braille;
pub mod gray;
