//! A verified core for a small photo service: folder-layout validation,
//! idempotent normalization of source images into one target codec,
//! content-addressed naming, aspect-ratio-preserving thumbnail derivation,
//! and an in-memory catalog partitioned by category.

pub mod catalog;
pub mod codec;
pub mod folders;
pub mod naming;
pub mod normalize;
pub mod paths;
pub mod service;
pub mod thumbnails;
