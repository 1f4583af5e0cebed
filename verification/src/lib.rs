//! A verified rendering core for a small animated "atom" overlay.
//!
//! The engine classifies every pixel of a window as nucleus, electron,
//! orbit band or transparent, and composites the result over a captured
//! background frame in 8x8 blocks, skipping the background lookup for
//! blocks that contain no atom content.
//!
//! All geometry is carried out in fixed-point arithmetic: lengths are
//! measured in thousandths of a pixel and angles in 1/4096 of a turn,
//! so that every step of the pipeline has an exact contract.

pub mod data_struct;
pub mod fixed;
pub mod graphics;
