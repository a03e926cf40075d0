//! A CPU reference of the ORB-style feature pipeline: grayscale ingestion,
//! separable smoothing, summed-area tables, FAST corners with non-maximum
//! suppression, BRIEF descriptors over box sums, and brute-force Hamming
//! matching against a keyframe snapshot.

pub mod image;
pub mod integral;
pub mod corners;
pub mod brief;
pub mod matcher;
pub mod pipeline;
