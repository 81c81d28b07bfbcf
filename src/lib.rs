//! Audio-to-spectrum pipeline: log-spaced band mapping, fixed-point spectral
//! analysis with gain shaping, percentile normalisation and contrast
//! enhancement, and a double-buffered spectrum channel.

pub mod analysis;
pub mod band_map;
pub mod channel;
