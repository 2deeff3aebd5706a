//! Rendering and layout engine for a terminal system-info banner.
//!
//! The crate measures text in terminal cells, pads a block of ASCII art to a
//! fixed column, humanizes numeric quantities, composes labeled info lines,
//! word-wraps them to the remaining terminal width, and merges the art column
//! with the info column row by row.

pub mod art;
pub mod cli;
pub mod info;
pub mod color;
pub mod humanize;
pub mod width;
pub mod wrap;
pub mod merge;
pub mod render;
