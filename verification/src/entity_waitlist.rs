//! The entities that are known locally, for which messages wait.
//!
//! A message that refers to an entity which has not appeared in the local
//! world cannot be delivered yet. It waits until every entity it refers to
//! is in scope.

use crate::message::{EntityHandle, MessageContainer, MessageView};
use std::collections::HashSet;
use vstd::prelude::*;

verus! {

broadcast use vstd::std_specs::hash::group_hash_axioms;

/// The set of entities that have appeared in the local world.
pub struct EntityWaitlist {
    in_scope: HashSet<EntityHandle>,
}

/// Whether every one of `entities` is in `scope`.
pub open spec fn all_in_scope(scope: Set<EntityHandle>, entities: Seq<EntityHandle>) -> bool {
    forall|i: int| 0 <= i < entities.len() ==> scope.contains(#[trigger] entities[i])
}

/// Whether a message can be delivered: every entity that it refers to is
/// in scope.
pub open spec fn is_ready(scope: Set<EntityHandle>, message: MessageView) -> bool {
    all_in_scope(scope, message.entities)
}

/// The messages among `waiting` that can be delivered, in their order.
pub open spec fn ready_messages(scope: Set<EntityHandle>, waiting: Seq<MessageView>) -> Seq<MessageView>
    decreases waiting.len(),
{
    if waiting.len() == 0 {
        Seq::empty()
    } else if is_ready(scope, waiting.last()) {
        ready_messages(scope, waiting.drop_last()).push(waiting.last())
    } else {
        ready_messages(scope, waiting.drop_last())
    }
}

/// The messages among `waiting` that cannot be delivered yet, in their
/// order.
pub open spec fn blocked_messages(scope: Set<EntityHandle>, waiting: Seq<MessageView>) -> Seq<MessageView>
    decreases waiting.len(),
{
    if waiting.len() == 0 {
        Seq::empty()
    } else if is_ready(scope, waiting.last()) {
        blocked_messages(scope, waiting.drop_last())
    } else {
        blocked_messages(scope, waiting.drop_last()).push(waiting.last())
    }
}

impl View for EntityWaitlist {
    type V = Set<EntityHandle>;

    closed spec fn view(&self) -> Set<EntityHandle> {
        self.in_scope@
    }
}

impl EntityWaitlist {
    /// A world in which no entity has appeared.
    pub fn new() -> (waitlist: Self)
        ensures
            waitlist@ == Set::<EntityHandle>::empty(),
    {
        EntityWaitlist { in_scope: HashSet::new() }
    }

    /// An entity has appeared.
    pub fn add_entity(&mut self, entity: EntityHandle)
        ensures
            final(self)@ == old(self)@.insert(entity),
    {
        self.in_scope.insert(entity);
    }

    /// An entity has gone.
    pub fn remove_entity(&mut self, entity: EntityHandle)
        ensures
            final(self)@ == old(self)@.remove(entity),
    {
        self.in_scope.remove(&entity);
    }

    /// Whether an entity is in scope.
    pub fn contains(&self, entity: EntityHandle) -> (found: bool)
        ensures
            found == self@.contains(entity),
    {
        self.in_scope.contains(&entity)
    }

    /// Whether a message can be delivered.
    pub fn message_ready(&self, message: &MessageContainer) -> (ready: bool)
        ensures
            ready == is_ready(self@, message@),
    {
        let entities = message.entities();
        let mut i: usize = 0;
        while i < entities.len()
            invariant
                i <= entities.len(),
                entities@ == message@.entities,
                forall|j: int| 0 <= j < i ==> self@.contains(#[trigger] entities@[j]),
            decreases entities.len() - i,
        {
            if !self.in_scope.contains(&entities[i]) {
                return false;
            }
            i += 1;
        }
        true
    }
}

} // verus!
