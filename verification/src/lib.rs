//! Debug Adapter Protocol core for JVM languages.

use vstd::prelude::*;

pub mod build_tools;
pub mod class_file;
pub mod files;
pub mod jdwp;
pub mod json;
pub mod launcher;
pub mod list;
pub mod main_class;
pub mod number;
pub mod path;
pub mod server;
pub mod source_laws;
pub mod source_map;
pub mod text;
pub mod transport;
pub mod types;
pub mod view_laws;
pub mod wire;

verus! {

} // verus!
