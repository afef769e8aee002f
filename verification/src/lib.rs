//! Detection-to-event pipeline for a person detector.
//!
//! Each video frame yields a set of candidate bounding boxes. This crate
//! deduplicates overlapping boxes (pairwise intersection-over-union
//! suppression), assigns stable integer identities to subjects across frames
//! by spatial overlap, decides whether the tracked scene has changed, and on
//! change builds the textual report that the surrounding program hands to its
//! message transport. All of that logic is pure and verified; camera input,
//! display output and the transport itself live outside this crate.

pub mod detection;
pub mod geometry;
pub mod pipeline;
pub mod report;
pub mod suppress;
pub mod tracker;
