//! Build reproducible, content-addressed OCI container images from an
//! installed filesystem tree.
//!
//! The crate walks a modelled filesystem subtree in a fixed order, splits its
//! entries across compressed tar layers by package popularity, preserves
//! extended attributes and hardlinks while clamping timestamps, and assembles
//! a content-addressed manifest, configuration and index.

pub mod archive;
pub mod cli;
pub mod compress;
pub mod config;
pub mod digest;
pub mod imager;
pub mod json;
pub mod lockfile;
pub mod pax;
pub mod store;
pub mod subid;
