//! Pointer-input hit-testing and default-action dispatch for a DOM-like
//! node tree, together with the bridge that redispatches DOM events to a
//! reactive UI framework.
//!
//! The tree, its layout boxes and the per-node state are modelled as plain
//! data (integer coordinates, string attributes), so that the hit-testing,
//! the ancestor-chain climbing and the default actions of pointer input are
//! all verified.  External collaborators (URL resolution, the framework's
//! handlers, the text-editing engine) are reached through narrow, explicit
//! interfaces: URL resolution through the `url` crate, framework handlers
//! through caller-supplied responses, the editor through a recorded stream
//! of operations.
#![allow(unused_imports)]

pub mod geom;
pub mod node;
pub mod strutil;
pub mod document;
pub mod hit;
pub mod mouse;
pub mod urlres;
pub mod bridge;
pub mod laws;
