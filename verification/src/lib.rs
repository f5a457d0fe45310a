//! Decision logic of a build orchestrator for the zlib-ng compression
//! library: the compile-probe cache and its on-disk text format, the
//! architecture feature-selection tables, target-string gating, and the
//! small text transforms applied to headers and pkg-config templates.
//!
//! Everything here is plain computation on byte strings and integers;
//! the surrounding program does the file handling and runs the compiler.

pub mod bytes;
pub mod hexnum;
pub mod lines;
pub mod cache;
pub mod order;
pub mod feature;
pub mod tables;
pub mod plan;
pub mod textops;
pub mod cmakecfg;
