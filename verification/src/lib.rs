//! Inventory of commercial software with free/open-source substitutes.
//!
//! The crate covers the pipeline from raw installation-registry values to
//! actionable results: normalizing and deduplicating installed-software
//! records (`registry`), resolving product names against a fixed
//! alternatives catalog (`foss_db`, `matcher`, `pipeline`), splitting raw
//! uninstall command strings (`parser`, `icons`, `winget`), and deciding
//! the privilege-aware launch sequence with its single elevated retry
//! (`launcher`). All I/O — registry reads, process creation, filesystem
//! probes — belongs to the caller, which hands plain values in and
//! performs the decided actions.

use vstd::prelude::*;

pub mod foss_db;
pub mod icons;
pub mod launcher;
pub mod matcher;
pub mod parser;
pub mod pipeline;
pub mod registry;
pub mod text;
pub mod winget;

verus! {

} // verus!
