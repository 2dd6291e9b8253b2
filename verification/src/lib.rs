//! The deciding part of CoordsFinder, a search for Minecraft coordinates by texture
//! rotations: configuration files, block filters, scan plans, and what the program
//! says and does around a scan.

use vstd::prelude::*;

pub mod config;
pub mod config_laws;
pub mod config_order;
pub mod config_spelling;
pub mod coverage;
pub mod error_laws;
pub mod file_laws;
pub mod filter;
pub mod filter_laws;
pub mod filter_meaning;
pub mod netherrack;
pub mod number;
pub mod number_laws;
pub mod options;
pub mod plan_laws;
pub mod program;
pub mod program_laws;
pub mod reading_laws;
pub mod scan;
pub mod spiral;
pub mod text;
pub mod text_laws;
pub mod types;

verus! {

/// The name of the program.
pub const PROGRAM: &'static str = "CoordsFinder";

/// The version of the program.
pub const VERSION: &'static str = "1.0.0";

/// What the program does, in one line.
pub const ABOUT: &'static str = "Crack Minecraft coordinates from texture rotations!";

} // verus!
