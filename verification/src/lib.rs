//! Motion input for a raster drawing toy: from dials and taps to the movement
//! of a stylus.
//!
//! Two input streams move a stylus over a canvas: the rotation of an analog
//! dial, tracked as an angle, and a rolling tap gesture over four adjacent
//! lanes, decoded from press timestamps. Both are turned into one bounded
//! displacement per tick.
//!
//! All quantities are integers: angles and positions in thousandths of a
//! degree and of a pixel, time in nanoseconds of a monotonic clock. What
//! needs floating point, the arctangent of a dial's vector above all, is the
//! host's to compute and to hand over as an integer.
//!
//! - [`angle`]: the angle of a dial and how far it has turned.
//! - [`gallop`]: the tap-gesture decoder.
//! - [`motion`]: the integrator that moves the stylus once per tick.
//! - [`image`]: the canvas, and [`indexed`]: the canvas by palette.
//! - [`fixed`] and [`vec2`]: the numbers and the points that the others use.

pub mod angle;
pub mod fixed;
pub mod gallop;
pub mod image;
pub mod indexed;
pub mod motion;
pub mod vec2;
