//! Compact two-bit storage of DNA sequences.

pub mod nuc;
pub mod packed;

pub use nuc::{Nuc, ParseNucError};
pub use packed::{ErrorKind, NucCounts, PackedDna};
