//! `dots`: a dotfiles manager whose pure core is verified.
//!
//! A run has three stages. Gathering reads the manifest, fetches its links and
//! walks its directories; [`World::new`] assembles what was read, checking
//! digests and collecting every failure. Transforming, [`World::process`], turns
//! the world into planned writes without any I/O: it routes files by their
//! markers or by their place under an input directory, and gives fetched files
//! a marker line and a banner. Applying performs the steps that
//! [`Analysis::finish`] lists for each write.

pub mod analysis;
pub mod apply;
pub mod config;
pub mod error;
pub mod marker;
pub mod output_path;
pub mod stdx;
pub mod template;
pub mod world;

pub use analysis::{Analysis, WritePath};
pub use config::{Config, Dir, Marker, FILE_NAME, GITHUB, MARKER};
pub use error::Error;
pub use marker::{extract, inject};
pub use output_path::{Locations, OutputPath};
pub use stdx::traverse_upwards;
pub use world::{File, Link, Visit, World};
