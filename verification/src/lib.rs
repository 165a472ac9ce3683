//! Decoding of a proprietary animation "dump" binary format, hierarchical
//! world-transform composition over the decoded skeleton, and CSV encoding of
//! bind poses and animated poses.
//!
//! All float values travel through the library as IEEE 754 bit patterns;
//! float arithmetic and formatting happen behind small trusted wrappers, and
//! everything else — the wire grammar, the parent-chain walk with its cycle
//! guard, and the CSV row layout — is verified.

pub mod csv;
pub mod decode;
pub mod encode;
pub mod error;
pub mod model;
pub mod reader;
pub mod text;
pub mod truncation;
pub mod xform;
