//! Colour-editing core: fixed-point colour-space conversions, an RGBA colour
//! value with hex text forms, a synchronisation engine that keeps several
//! editable views of one colour consistent, and cached gradient rasters.
//!
//! Every channel is a fixed-point number: the integer `UNIT` stands for 1.0.

pub mod math;
pub mod hex;
pub mod color;
pub mod editor;
pub mod raster;
pub mod inputs;
pub mod pointer;

pub use color::SolidColor;

