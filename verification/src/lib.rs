use vstd::prelude::*;

pub mod observation;
pub mod text;
pub mod models;
pub mod scan_types;
pub mod scan_store;
pub mod clock;
pub mod cancellation;
pub mod size;
pub mod engine;
pub mod signature;
pub mod registry;
pub mod relationship;
pub mod loader;
pub mod settings;
pub mod settings_store;
pub mod system;
pub mod plan_store;
pub mod cleanup;
pub mod walker;
pub mod lint;
pub mod exclusions;
pub mod eligibility;
pub mod laws;

verus! {

} // verus!
