//! Core of a small full-screen text viewer for a fixed 320x240 display.
//!
//! The library turns a UTF-8 string into a sequence of display lines that are
//! grapheme-cluster safe and column-bounded, keeps a cache of rasterized
//! glyphs, computes the exact pixel writes needed to draw a line, and drives
//! the scroll state machine that decides between full repaints and one-line
//! incremental repaints. Everything that touches the device (the SDL surface,
//! the font engine, key input) lives outside this crate and exchanges plain
//! values with it.

pub mod glyph;
pub mod render;
pub mod scroll;
pub mod types;
pub mod wrap;
