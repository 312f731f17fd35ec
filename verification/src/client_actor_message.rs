//! What the client tells its host of the actors and entities that the
//! server replicates to it.

use vstd::prelude::*;

verus! {

/// The key by which the client knows an actor.
pub type LocalActorKey = u16;

/// The key by which the client knows an entity.
pub type LocalEntityKey = u16;

/// A change to the actors and entities that the client knows. `U` is what
/// the host keeps of an actor that has gone.
#[derive(Debug, Clone)]
pub enum ClientActorMessage<U> {
    /// An actor has come into scope.
    CreateActor(LocalActorKey),
    /// An actor has changed.
    UpdateActor(LocalActorKey),
    /// An actor has gone; its last state is handed over.
    DeleteActor(LocalActorKey, U),
    /// An actor was given to the client to control.
    AssignPawn(LocalActorKey),
    /// An actor was taken from the client's control.
    UnassignPawn(LocalActorKey),
    /// The server has corrected an actor that the client controls.
    ResetPawn(LocalActorKey),
    /// An entity has come into scope.
    CreateEntity(LocalEntityKey),
    /// An entity has gone.
    DeleteEntity(LocalEntityKey),
    /// An entity was given to the client to control.
    AssignPawnEntity(LocalEntityKey),
    /// An entity was taken from the client's control.
    UnassignPawnEntity(LocalEntityKey),
    /// The server has corrected an entity that the client controls.
    ResetPawnEntity(LocalEntityKey),
    /// A component was added to an entity.
    AddComponent(LocalEntityKey, LocalActorKey),
    /// A component of an entity has changed.
    UpdateComponent(LocalEntityKey, LocalActorKey),
    /// A component was removed from an entity; its last state is handed
    /// over.
    RemoveComponent(LocalEntityKey, LocalActorKey, U),
}

} // verus!
