//! A user interface toolkit for windows that are not rectangles somebody gave
//! you: transparent, always on top, click-through where nothing is drawn.
//!
//! This crate is the part of it that decides things: what an editable field
//! does with a key press, where a glyph is packed in an atlas, which box a
//! click belongs to, and the geometry all of that is measured in.

pub mod input;
pub mod segment;
pub mod selftest;
pub mod snapshot;
pub mod editor;
pub mod element;
pub mod overlay;
pub mod theme;
pub mod geometry;
pub mod pictures;
pub mod renderer;
pub mod text;
pub mod ui;

pub use input::{Composition, Input, Key, Press};
