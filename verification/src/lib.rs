//! Construction and analysis of Lojban compound words (lujvo).
//!
//! A lujvo is a concatenation of word fragments (rafsi) and single-letter
//! glue tokens (`y`, `r`, `n`).  This crate provides the phonological rule
//! engine for such compounds: a decomposition parser that splits a surface
//! word back into its fragments and validates the canonical hyphenation, a
//! construction engine that assembles a fragment list into a canonical
//! surface word, and a generation and ranking engine that enumerates and
//! ranks all compounds buildable from a list of root words.

pub mod catalog;
pub mod clusters;
pub mod construct;
pub mod errors;
pub mod generate;
pub mod jvokaha;
pub mod scoring;
pub mod shape;
pub mod text;
pub mod tools;

pub use crate::catalog::Catalog;
pub use crate::construct::{is_4letter, is_ccv, is_cvc, is_cvv, is_tosmabru, normalize};
pub use crate::errors::LujvoError;
pub use crate::generate::{create_every_possibility, jvozba, LujvoAndScore};
pub use crate::jvokaha::{jvokaha, jvokaha2};
pub use crate::scoring::get_lujvo_score;
pub use crate::shape::is_cmevla;
pub use crate::tools::{
    cmavo_rafsi_list, get_candid, gismu_rafsi_list, reconstruct_lujvo,
    search_selrafsi_from_rafsi2, RafsiOptions,
};
