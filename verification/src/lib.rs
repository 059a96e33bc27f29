//! Merges the images of a directory into one composite image.
//!
//! The library holds the decisions of the merge engine and of the scanner that
//! feeds it: which files count as images, which count as earlier composites,
//! how a set of images is laid out, to which size each image is brought, and
//! where each pixel of each image lands on the canvas. Reading and writing
//! files is left to the caller, which drives [`job::MergeJob`] and performs
//! the actions it asks for.

pub mod codec;
pub mod compose;
pub mod error;
pub mod job;
pub mod merger;
pub mod naming;
pub mod order;
pub mod paths;
pub mod raster;
pub mod resize;
pub mod scale;
pub mod scanner;
pub mod test_utils;
pub mod timestamp;
