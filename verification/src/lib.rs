//! Arithmetic in the field of 32 elements and the checksum residues of bech32
//! and codex32 that are built on it.
//!
//! - `fe`: the field element, its sum and product, and its symbols.
//! - `poly`: polynomials over the field and their reduction modulo a generator.
//! - `residue`: what reduction computes, stated over sequences.
//! - `share`: a string of symbols of which some may be unknown.
//! - `field_laws`, `symbol_laws`, `residue_laws`: what is proved of the above
//!   for every input.

pub mod fe;
pub mod field_laws;
pub mod poly;
pub mod residue;
pub mod residue_laws;
pub mod share;
pub mod symbol_laws;
