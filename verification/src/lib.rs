//! A scrolling staff of generated notes: layout regions, rhythmic
//! subdivision of measures, the sliding window of measures, and matching
//! of played pitches against the judgment line.
//!
//! All quantities are integers. Lengths of a layout are given in layout
//! units; everything that moves is kept in thousandths of a unit, so that a
//! step of one millisecond at a speed given per second is exact.

pub mod config;
pub mod measure;
pub mod note;
pub mod rhythm;
pub mod sheet;
pub mod sprites;
pub mod subdivision;
