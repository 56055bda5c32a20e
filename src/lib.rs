//! Lazy enumeration of every contiguous window of a sequence, width by width.
//!
//! A [`Gradient`] owns its input and walks it in passes: first every window
//! of width 1 from left to right, then every window of width 2, and so on up
//! to the full length of the input, or up to a configured maximum width.
//!
//! Each window handed out by [`Gradient::next`] borrows from the gradient for
//! the duration of that call only; a consumer that keeps windows copies their
//! elements out before advancing again.

pub mod gradient;
pub mod laws;

pub use gradient::{Gradient, GradientView};
