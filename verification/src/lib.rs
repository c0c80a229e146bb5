//! Verified core of a Unity sprite-authoring toolchain.
use vstd::prelude::*;

pub mod png;
pub mod text;
pub mod meta;
pub mod meta_laws;
pub mod fab;
pub mod cli;
pub mod combine;
pub mod manifest;
pub mod mesh_emit;
pub mod mesh_text;
pub mod pipeline;
pub mod editor;
pub mod messages;

verus! {
} // verus!
