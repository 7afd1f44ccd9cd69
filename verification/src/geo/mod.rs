//! Geometry support that involves no coordinates: which partition owns which
//! location.
pub mod partition;
