//! The core of the zako build system: neutral paths, identifiers and labels,
//! package identifiers, the string interner, file patterns, the resource pool and
//! the local content-addressed store.
pub mod author;
pub mod blob_range;
pub mod config_value;
pub mod hash_input;
pub mod id;
pub mod intern;
pub mod local_cas;
pub mod module_loader;
pub mod node;
pub mod node_key;
pub mod package;
pub mod package_id;
pub mod package_source;
pub mod path;
pub mod pattern;
pub mod project;
pub mod resource;
pub mod text;
pub mod tool;
pub mod transformer;
pub mod worker;
