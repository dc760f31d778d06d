//! A verified pixel pipeline for a fixed photographic look: film grain,
//! a cyan-leaning greyscale color filter, and a radial vignette, applied in
//! that order to one RGBA raster.

pub mod model;
pub mod noise;
pub mod raster;
