//! Export of volumetric imaging data to the BESA `SA_IMAGE` ASCII format.
//!
//! The library turns a calibrated sample grid and a set of acquisition
//! parameters into the exact text that the downstream source-analysis tool
//! reads.  All numbers are rendered by verified integer arithmetic, so the
//! text is the same on every machine.
//!
//! * `number`, `digits`, `text`: values and their decimal notation.
//! * `volume`, `settings`, `error`: what goes into an export, and what can
//!   be wrong with it.
//! * `layout`, `export`: the lines of an export and the exporter itself.
//! * `cli`, `run`: the command line, and a run as a sequence of decisions.
//! * `lines`, `structure`, `precision`: what holds of every export.

pub mod cli;
pub mod digits;
pub mod error;
pub mod export;
pub mod layout;
pub mod lines;
pub mod number;
pub mod precision;
pub mod run;
pub mod settings;
pub mod structure;
pub mod text;
pub mod volume;
