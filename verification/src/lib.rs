//! An incremental API-specification aggregation engine.
//!
//! Independently registered route-like contributors each supply a fragment of
//! API metadata: a path, the operations served under it, the schemas they
//! reference and the security schemes they require. The engine merges those
//! fragments into one consistent document under a deterministic last-write-wins
//! policy, canonicalizes path items on demand, rewrites path keys against a
//! base path, and derives a second schema version of the document as a pure
//! function of a snapshot.

pub mod assoc;
pub mod document;
pub mod model;
pub mod path_item;
pub mod str_map;
pub mod translate;

pub use document::{Document, Fragment, Mountable};
pub use model::{Dup, Method, Operation, Schema, SecurityScheme};
pub use path_item::{MethodMap, PathItem};
pub use str_map::StrMap;
pub use translate::DocumentV3;
