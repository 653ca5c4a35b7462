//! Puppets: the in-world characters an account owns.

use vstd::prelude::*;
use crate::entity::EntityKey;
use super::name::PuppetName;

verus! {

/// An in-world character owned by an account, identified by its durable
/// entity key — the key its location and inventory persist against.
#[derive(Debug, Clone, PartialEq, Eq)]
pub struct Puppet {
    /// The puppet's durable entity identity.
    pub key: EntityKey,
    /// The puppet's display name.
    pub name: PuppetName,
}

impl Puppet {
    /// Pairs a durable entity key with a puppet name.
    pub fn new(key: EntityKey, name: PuppetName) -> (r: Self)
        ensures
            r.key == key,
            r.name == name,
    {
        Puppet { key, name }
    }
}

} // verus!
