//! Pluvia: the verified core of a Rainmeter skin engine for Linux.
//!
//! The library holds the parts of the engine that decide things: bang
//! command parsing, `#Variable#` expansion, INI section handling, path
//! normalisation, package-entry checks, charset detection and the small
//! string formats used by measures and plugins.
pub mod bangs;
pub mod client;
pub mod display;
pub mod encoding;
pub mod extractor;
pub mod formulas;
pub mod ini;
pub mod ipc;
pub mod measures;
pub mod plugins;
pub mod render;
pub mod runtime;
pub mod surface;
pub mod text;
pub mod variables;
pub mod vfs;
