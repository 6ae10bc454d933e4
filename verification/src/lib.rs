//! A verified core for the CMSIS pack-index ecosystem.
//!
//! The crate parses vendor index (VIDX) and pack index (PIDX) catalogs into
//! pack description references, and materializes the device tree of a pack
//! description (PDSC) document: every device inherits memory regions, flash
//! algorithms and processor descriptors from its enclosing
//! family / subFamily / device / variant hierarchy.

pub mod algo;
pub mod assoc;
pub mod attrs;
pub mod device;
pub mod error;
pub mod fetch;
pub mod memory;
pub mod proc;
pub mod strutil;
pub mod vidx;
pub mod xml;
