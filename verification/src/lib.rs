//! A monophonic note-timeline renderer.
//!
//! From a stream of delta-timed note-on/note-off events this library
//! reconstructs the set of notes sounding at every instant, collapses that
//! history into an ordered list of change points, derives tone segments from
//! consecutive change points, and plans the rendering of each segment
//! (windowing by segment index, monophonic pitch selection, time scaling and
//! a minimum-duration threshold). A fixed-rate sample counter drives the
//! per-segment tone generation.

pub mod event;
pub mod notes;
pub mod render;
pub mod timeline;
pub mod tone;
