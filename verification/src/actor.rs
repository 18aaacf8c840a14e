use crate::id::{RawID, TypedID};
use crate::storage_aware::StorageAware;
use vstd::prelude::*;

verus! {

/// Something that can be addressed in the system: an actor class or an actor trait.
pub trait ActorOrActorTrait {
    /// The typed id that refers to instances of this class or trait.
    type ID: TypedID;
}

impl<A: Actor> ActorOrActorTrait for A {
    type ID = <Self as Actor>::ID;
}

/// The state of an actor instance. It carries the id of its instance.
pub trait Actor: StorageAware {
    /// The typed id that refers to instances of this class.
    type ID: TypedID;

    /// The id of this instance.
    fn id(&self) -> Self::ID;

    /// Sets the id of this instance. Only the system does so, when it places the instance.
    fn set_id(&mut self, id: RawID);
}

/// Says that an actor class implements an actor trait, so that the ids of
/// its instances are also ids of the trait.
pub trait TraitIDFrom<A: Actor>: TypedID {
    /// The id of the trait for the id of an instance of the class: the
    /// typed id that `from_raw` makes of the raw id of the given id.
    fn from(id: <A as Actor>::ID) -> (r: Self)
        ensures
            exists|raw: RawID|
                call_ensures(<<A as Actor>::ID as TypedID>::as_raw, (&id,), raw) && #[trigger] call_ensures(
                    <Self as TypedID>::from_raw,
                    (raw,),
                    r,
                ),
    {
        Self::from_raw(id.as_raw())
    }
}

/// The id of an instance as the id of an actor trait that its class implements.
pub fn id_as<A: Actor, TargetID: TraitIDFrom<A>>(actor: &A) -> (r: TargetID)
    ensures
        exists|id: <A as Actor>::ID|
            call_ensures(<A as Actor>::id, (actor,), id) && #[trigger] call_ensures(
                <TargetID as TraitIDFrom<A>>::from,
                (id,),
                r,
            ),
{
    TargetID::from(actor.id())
}

} // verus!
