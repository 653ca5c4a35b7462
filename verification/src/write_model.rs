//! The write-model vocabulary shared by the world (which applies it) and the
//! scheduler (which queues it): the primitive [`Effect`], its optional
//! [`Precondition`] guard, the [`MutationCommand`] that pairs them, and the
//! [`TickEvent`] outcomes an apply produces.

use vstd::prelude::*;
use crate::arena::{ArenaError, ArenaFault};
use crate::entity::EntityId;
use crate::place::id::PlaceId;

verus! {

/// A primitive world mutation. Each variant maps to one world operation;
/// atomicity of a read-then-write comes from a [`Precondition`] on the
/// [`MutationCommand`], not from a compound effect.
#[derive(Debug, Clone, Copy, PartialEq, Eq, Structural)]
#[non_exhaustive]
pub enum Effect {
    /// Create a new entity; the minted handle is reported via
    /// [`TickEvent::Created`].
    Create,
    /// Tear an entity down (free its handle, clear its slot's tables).
    Teardown {
        /// The entity to tear down.
        entity: EntityId,
    },
    /// Move an entity to a place, replacing its previous location.
    MoveTo {
        /// The entity being moved.
        entity: EntityId,
        /// The destination place.
        place: PlaceId,
    },
    /// Clear an entity's location, so it is located nowhere.
    ClearLocation {
        /// The entity whose location is cleared.
        entity: EntityId,
    },
    /// Add an item to a container's inventory.
    InventoryAdd {
        /// The container receiving the item.
        container: EntityId,
        /// The item being added.
        item: EntityId,
    },
    /// Remove an item from a container's inventory.
    InventoryRemove {
        /// The container losing the item.
        container: EntityId,
        /// The item being removed.
        item: EntityId,
    },
}

/// A condition evaluated against the world at apply time. When a
/// [`MutationCommand`] carries one and it does not hold, the effect is
/// skipped and a [`TickEvent::PreconditionFailed`] is emitted.
#[derive(Debug, Clone, Copy, PartialEq, Eq, Structural)]
#[non_exhaustive]
pub enum Precondition {
    /// Holds when `entity` is currently located at `place`.
    LocatedIn {
        /// The entity whose location is checked.
        entity: EntityId,
        /// The place it must currently occupy.
        place: PlaceId,
    },
    /// Holds when `container` currently holds `item`.
    Contains {
        /// The container whose contents are checked.
        container: EntityId,
        /// The item it must currently hold.
        item: EntityId,
    },
}

/// A single unit of work for the scheduler: an [`Effect`] with an optional
/// [`Precondition`] guard.
#[derive(Debug, Clone, Copy, PartialEq, Eq, Structural)]
pub struct MutationCommand {
    precondition: Option<Precondition>,
    effect: Effect,
}

impl MutationCommand {
    /// The effect, over plain values.
    pub closed spec fn effect_spec(self) -> Effect {
        self.effect
    }

    /// The precondition, over plain values.
    pub closed spec fn precondition_spec(self) -> Option<Precondition> {
        self.precondition
    }

    /// Creates an unconditional command carrying `effect`.
    pub fn new(effect: Effect) -> (r: Self)
        ensures
            r.effect_spec() == effect,
            r.precondition_spec() is None,
    {
        MutationCommand { precondition: None, effect }
    }

    /// Attaches a precondition, making this a guarded read-then-write: the
    /// effect applies only if `precondition` holds at apply time.
    pub fn with_precondition(self, precondition: Precondition) -> (r: Self)
        ensures
            r.effect_spec() == self.effect_spec(),
            r.precondition_spec() == Some(precondition),
    {
        MutationCommand { precondition: Some(precondition), ..self }
    }

    /// The effect this command applies.
    pub fn effect(&self) -> (r: Effect)
        ensures
            r == self.effect_spec(),
    {
        self.effect
    }

    /// The precondition guarding this command, if any.
    pub fn precondition(&self) -> (r: Option<Precondition>)
        ensures
            r == self.precondition_spec(),
    {
        self.precondition
    }
}

/// The outcome of applying one [`MutationCommand`] during a tick. Successful
/// effects other than [`Effect::Create`] produce no event.
#[derive(Debug, Clone, Copy, PartialEq, Eq, Structural)]
#[non_exhaustive]
pub enum TickEvent {
    /// An [`Effect::Create`] minted this entity.
    Created {
        /// The freshly minted entity handle.
        entity: EntityId,
    },
    /// A command's precondition did not hold; its effect was not applied.
    PreconditionFailed {
        /// The precondition that failed.
        precondition: Precondition,
        /// The effect that was therefore skipped.
        effect: Effect,
    },
    /// An effect was rejected by the arena (a stale or foreign handle, or slot
    /// exhaustion) and was not applied.
    Rejected {
        /// The effect that was rejected.
        effect: Effect,
        /// Why the arena rejected it.
        error: ArenaError,
    },
}

/// A tick event over plain values.
pub enum EventModel {
    Created { entity: u64 },
    PreconditionFailed { precondition: Precondition, effect: Effect },
    Rejected { effect: Effect, error: ArenaFault },
}

impl View for TickEvent {
    type V = EventModel;

    open spec fn view(&self) -> EventModel {
        match self {
            TickEvent::Created { entity } => EventModel::Created { entity: entity@ },
            TickEvent::PreconditionFailed { precondition, effect } => EventModel::PreconditionFailed {
                precondition: *precondition,
                effect: *effect,
            },
            TickEvent::Rejected { effect, error } => EventModel::Rejected { effect: *effect, error: error@ },
        }
    }
}

} // verus!
