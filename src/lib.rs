//! The collaboration layer of a multi-agent coding assistant: the plugin
//! registry of roles, categories and mode prompts; the spawn-permission model
//! and its editor; and the bookkeeping of agent threads and their statuses.
//!
//! - `registry` merges the manifests of the enabled plugins.
//! - `permissions` and `editor` decide which roles a caller may spawn.
//! - `modes` and `presets` render the collaboration-mode prompts.
//! - `collab` tracks thread statuses and resolves waits.
//! - `ids`, `keyed` and `text` hold the id, collection and text helpers.
use vstd::prelude::*;

pub mod collab;
pub mod editor;
pub mod ids;
pub mod keyed;
pub mod modes;
pub mod permissions;
pub mod presets;
pub mod registry;
pub mod text;

verus! {

} // verus!
