//! Integer core of a strange-attractor renderer: a grayscale canvas whose
//! pixels wear down each time an orbit lands on them, the auto-scaling of the
//! visible coordinate window, and the pacing of time-budgeted render frames.
//!
//! Orbit points reach the library as fixed-point coordinates (see
//! [`canvas::Point`]); generating them is left to the host.

pub mod canvas;
pub mod frame;
pub mod pixel;

pub use canvas::{AttractorObj, CanvasError, CanvasView, Point};
pub use frame::{FrameBudget, BATCH};
pub use pixel::Rgba;
