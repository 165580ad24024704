//! Data types that several packets share.

pub mod conditions;
pub mod find;
pub mod object_status_data;
pub mod statdata;

use vstd::prelude::*;

verus! {

/// The id of an object (a player, an enemy, ...) in the current map.
#[derive(Debug, Clone, Copy, PartialEq, Eq, Structural, PartialOrd, Ord, Hash)]
pub struct ObjectId(pub u32);

/// A projectile is identified by its own id and the object that shot it.
#[derive(Debug, Clone, Copy, PartialEq, Eq, Structural, PartialOrd, Ord, Hash)]
pub struct ProjectileId {
    pub id: u16,
    pub owner_id: ObjectId,
}

} // verus!
