//! Conversion of Arch Linux PKGBUILD recipes to the Rookery `.rook` format,
//! and construction of signed Rookery package repository indexes.
//!
//! The crate is organised as:
//! - [`text`]: character-level string utilities with full functional contracts;
//! - [`pkgbuild`]: the PKGBUILD lexer/parser and build-variable expansion;
//! - [`arch`]: the name-mapping tables, the dependency codec and the `.rook`
//!   emitter;
//! - [`repo`]: repository metadata, the package index, and the key resolver.

pub mod arch;
pub mod errs;
pub mod pkgbuild;
pub mod repo;
pub mod text;
