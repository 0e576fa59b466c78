//! Frame generation for a fixed set of lights: an asynchronous twinkle effect
//! over three- and four-channel colors.
pub mod color;
pub mod brightness;
pub mod shine;
pub mod effect;
mod random;
pub mod geometry;
