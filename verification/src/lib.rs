//! A software drawing surface: points, axis-aligned lines, rectangles, clipped
//! regions and text glyphs, written straight into a packed-pixel byte buffer.
//!
//! Beside the surface stand the two small things that the window around it
//! needs: the colors of its decorations, and the rule by which one of two
//! waiting window events is kept.

pub mod color;
pub mod draw;
pub mod event;
pub mod geometry;
pub mod label;
pub mod theme;

pub use color::{composite, Color};
pub use draw::{buffer_layout, draw_point, BufferLayout, Draw, DrawError};
pub use geometry::{Point, Rect};
pub use label::{Glyph, Label};
pub use theme::{ButtonState, WaylandTheme};
