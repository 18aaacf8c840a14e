//! An actor runtime for simulations that run in lockstep on a cluster of
//! peers. Actors are isolated state cells that talk only through messages;
//! messages are dispatched in turns that every peer mirrors.
//!
//! This crate holds the runtime's logic: ids, the type registry, the class
//! storage with its slot map, the inbox queue, the dispatch loop and the
//! framing and turn bookkeeping of the network transport. Sockets live with
//! the embedding program.

pub mod actor;
pub mod actor_system;
pub mod class;
pub mod external;
pub mod id;
pub mod messaging;
pub mod networking;
pub mod storage_aware;
pub mod tuning;
pub mod type_registry;
pub mod wire;
pub mod world;

pub use actor::{Actor, ActorOrActorTrait, TraitIDFrom};
pub use actor_system::ActorSystem;
pub use class::inbox::{DispatchablePacket, Inbox, InboxIterator};
pub use class::instance_store::slot_map::{SlotIndices, SlotMap};
pub use class::instance_store::{Instance, InstanceStore};
pub use class::{ActorStateVTable, ActorVTable, Class, MessageHandler};
pub use external::External;
pub use id::{
    broadcast_instance_id, broadcast_machine_id, MachineID, ParseRawIDError, RawID, TypedID,
};
pub use messaging::{Fate, Handler, Message, Packet, Panicked, Spawner};
pub use networking::{Connection, Networking};
pub use storage_aware::StorageAware;
pub use tuning::Tuning;
pub use type_registry::{ShortTypeId, TypeRegistry};
pub use world::World;
