//! Small ECS components that carry no floating-point data.
use crate::assets::MeshHandle;
use vstd::prelude::*;

verus! {

/// Marks the entity used as the active render and gameplay camera. A tag,
/// so several cameras can exist with one of them marked active.
#[derive(Debug, Clone, Copy, PartialEq, Eq)]
pub struct ActiveCamera;

impl Default for ActiveCamera {
    fn default() -> (r: ActiveCamera)
        ensures
            r == ActiveCamera,
    {
        ActiveCamera
    }
}

/// The mesh an entity draws.
#[derive(Debug, Clone, Copy, PartialEq, Eq)]
pub struct MeshRenderer {
    pub mesh: MeshHandle,
}

/// A human-readable identifier for debugging, editor display and lookup.
#[derive(Debug, Clone, PartialEq, Eq)]
pub struct Name(pub String);

impl Default for Name {
    /// The empty name.
    fn default() -> (r: Name)
        ensures
            r.0@ == Seq::<char>::empty(),
    {
        Name(String::new())
    }
}

impl Name {
    /// A name from anything that converts into a `String`; from a `&str` or
    /// a `String` it holds the same characters.
    pub fn new<S: Into<String>>(value: S) -> (r: Name)
        ensures
            call_ensures(S::into, (value,), r.0),
    {
        Name(value.into())
    }
}

} // verus!
