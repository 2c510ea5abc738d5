//! Locates hand-engineered byte signatures in the raw image of a loaded
//! module and resolves each to a named, module-relative offset.
//!
//! The signature language supports exact bytes, byte and nibble wildcards,
//! skips, and two 4-byte capture forms (instruction-pointer-relative and raw
//! little-endian). A compiled pattern is scanned over an immutable byte
//! buffer; matches feed a per-module offset map, and a registry of patterns
//! per module drives the whole table build. Pattern-level failures are
//! isolated; a missing module image fails the whole aggregation.

pub mod aggregate;
pub mod builder;
pub mod compile;
pub mod offset_map;
pub mod pattern;
pub mod registry;
pub mod render;
pub mod scanner;
