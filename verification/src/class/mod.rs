use crate::id::{spec_broadcast_instance_id, MachineID, RawID, RawIDView};
use crate::messaging::{run_spawner, spawned, Handler, Packet, Panicked, Spawner};
use crate::tuning::Tuning;
use crate::type_registry::ShortTypeId;
use crate::wire::{frame_message_type, frame_recipient};
use crate::world::World;
use vstd::prelude::*;

pub mod inbox;
pub mod instance_store;

use inbox::{decodes, DispatchablePacket, Inbox};
use instance_store::broadcast::broadcast_result;
use instance_store::model::{SlotView, StoreModel};
use instance_store::{
    broadcast_ran, delivery_result, instance_ran, reusable, AddError, BroadcastReport, Delivery,
    Instance, InstanceStore,
};

verus! {

/// The number of message types that a class can tell apart.
pub const MAX_MESSAGE_TYPES: usize = 256;

/// What the storage has to know of the state type of a class.
pub struct ActorStateVTable {
    /// The size that the storage plans for one instance.
    pub typical_size: usize,
}

/// What a class does with the messages of one type.
pub enum MessageHandler<H, S> {
    /// Nothing was registered for the type.
    Unassigned,
    /// A handler runs on the recipient, or on every instance for a broadcast.
    OnMessage {
        handler: H,
        /// Whether the handler still runs after a panic.
        critical: bool,
    },
    /// A spawner makes a new instance.
    OnSpawn {
        spawner: S,
        /// Whether the spawner still runs after a panic.
        critical: bool,
    },
}

/// The dispatch table of a class, with what else is fixed for its type.
pub struct ActorVTable<H, S> {
    /// What to do with the messages of each type, by the type's id.
    pub message_handlers: Vec<MessageHandler<H, S>>,
    pub state_v_table: ActorStateVTable,
    /// The name of the class.
    pub name: String,
}

/// All instances of one actor type, with their inbox and their dispatch table.
pub struct Class<H, S> {
    pub instance_store: InstanceStore,
    pub v_table: ActorVTable<H, S>,
    pub inbox: Inbox,
}

/// What the dispatch of one message did.
pub enum Dispatched {
    /// Nothing ran: a handler panicked earlier, and what is registered for
    /// the message is not critical.
    Skipped,
    /// The message went to one recipient.
    Instance(Delivery),
    /// The message went to every instance of the class.
    Broadcast(BroadcastReport),
    /// The spawner made the instance with this id.
    Spawned(RawID),
    /// The spawner panicked.
    SpawnPanicked,
    /// The spawner made an instance under an id that cannot be used.
    SpawnRejected(AddError),
    /// Nothing is registered for the message, and no handler had panicked.
    Unassigned,
}

impl Dispatched {
    /// Whether the dispatch ended as a panic does: in a panic of a handler
    /// or a spawner, with a spawned instance that cannot be added, or for
    /// want of a handler.
    pub open spec fn is_failure(&self) -> bool {
        match self {
            Dispatched::Instance(d) => d is Panicked,
            Dispatched::Broadcast(report) => report.panicked,
            Dispatched::SpawnPanicked => true,
            Dispatched::SpawnRejected(_) => true,
            Dispatched::Unassigned => true,
            _ => false,
        }
    }

    /// Whether the dispatch ended as a panic does.
    #[verifier::when_used_as_spec(is_failure)]
    pub fn failed(&self) -> (b: bool)
        ensures
            b == self.is_failure(),
    {
        match self {
            Dispatched::Instance(d) => match d {
                Delivery::Panicked => true,
                _ => false,
            },
            Dispatched::Broadcast(report) => report.panicked,
            Dispatched::SpawnPanicked => true,
            Dispatched::SpawnRejected(_) => true,
            Dispatched::Unassigned => true,
            _ => false,
        }
    }
}

/// A dispatch that ended as a panic does, and the type of its message.
pub struct Failure {
    pub message_type: ShortTypeId,
    pub dispatched: Dispatched,
}

/// What one pass of a class over its inbox did.
pub struct CycleReport {
    /// The number of messages that were dispatched without failure.
    pub handled: usize,
    /// The recipients that were not found: they are dead.
    pub not_found: Vec<RawID>,
    /// The dispatch that ended the pass early, if one did.
    pub failure: Option<Failure>,
}

/// What a spawn has done: the instance with the given id is new, and nothing else has changed.
pub open spec fn spawn_result(m0: StoreModel, m: StoreModel, id: RawID) -> bool {
    let k = id.instance_id as int;
    &&& !m0.instances().dom().contains(k)
    &&& m.instances().dom() == m0.instances().dom().insert(k)
    &&& m.instances()[k].id == id
    &&& forall|j: int| m0.instances().dom().contains(j) ==> #[trigger] m.instances()[j] == m0.instances()[j]
    &&& m.count == m0.count + 1
}

/// Whether what is registered runs: always before a panic, and after one only if it is critical.
pub open spec fn runs(critical: bool, panic_happened: bool) -> bool {
    critical || !panic_happened
}

/// What the dispatch of a message has done to the store of a class.
/// `entry` is what the class has registered for the type of the message.
pub open spec fn dispatch_result<H, S>(
    m0: StoreModel,
    m: StoreModel,
    entry: MessageHandler<H, S>,
    recipient_id: RawIDView,
    panic_happened: bool,
    r: Dispatched,
) -> bool {
    match entry {
        MessageHandler::Unassigned => {
            &&& m == m0
            &&& panic_happened ==> r is Skipped
            &&& !panic_happened ==> r is Unassigned
        },
        MessageHandler::OnMessage { handler, critical } => {
            if !runs(critical, panic_happened) {
                r is Skipped && m == m0
            } else if recipient_id.instance_id == spec_broadcast_instance_id() {
                r matches Dispatched::Broadcast(report) && broadcast_result(
                    m0,
                    m,
                    report.delivered@,
                    !report.panicked,
                ) && (report.panicked ==> report.delivered@.len() >= 1)
            } else {
                r matches Dispatched::Instance(d) && delivery_result(m0, m, recipient_id, d)
            }
        },
        MessageHandler::OnSpawn { spawner, critical } => {
            if !runs(critical, panic_happened) {
                r is Skipped && m == m0
            } else {
                match r {
                    Dispatched::Spawned(id) => spawn_result(m0, m, id),
                    Dispatched::SpawnPanicked => m == m0,
                    Dispatched::SpawnRejected(_) => m.instances() == m0.instances() && m.arena
                        == m0.arena && m.count == m0.count,
                    _ => false,
                }
            }
        },
    }
}

/// Whether a store takes a spawned instance under an id, where the world
/// has handed out `known` instance ids of the class: the instance id is one
/// of those or known to the store, no instance stands under it, and the
/// version is the one that it is to be used with next.
pub open spec fn takes(m: StoreModel, known: nat, id: RawID) -> bool {
    let k = id.instance_id as int;
    if k < m.entries.len() {
        !m.entries[k].is_valid() && m.versions[k] == id.version
    } else {
        k < known && id.version == 0
    }
}

/// What the answer of a spawner has done to the store of a class, in the
/// world that the spawner left. The instance that the spawner made was added under its id where the store
/// takes it, and rejected where not; a panic left the store as it was.
pub open spec fn spawn_placed(
    m0: StoreModel,
    m: StoreModel,
    world: World,
    out: Result<Instance, Panicked>,
    r: Dispatched,
) -> bool {
    match out {
        Err(_) => r is SpawnPanicked && m == m0,
        Ok(instance) => {
            &&& r is Spawned || r is SpawnRejected
            &&& r is Spawned <==> takes(m0, world.known_ids(instance.id.type_id), instance.id)
            &&& r matches Dispatched::Spawned(id) ==> id == instance.id && spawn_result(m0, m, id)
                && m.instances()[id.instance_id as int] == (SlotView {
                id,
                state: instance.state@,
                slot_size: instance.state@.len(),
            })
            &&& r matches Dispatched::SpawnRejected(e) ==> m.instances() == m0.instances()
                && m.arena == m0.arena && m.count == m0.count && (e is IdInUse
                <==> m0.instances().dom().contains(instance.id.instance_id as int))
        },
    }
}

/// What the dispatch of a message has to do with what the class has
/// registered for its type. `w0` is the world before and `w1` the world
/// after. Where nothing ran, the world is as it was. A handler ran as
/// `instance_ran` or `broadcast_ran` says. A spawner ran once, on the world
/// as it was; the world is as the spawner left it, and what it made was
/// placed as `spawn_placed` says.
pub open spec fn dispatch_ran<H: Handler, S: Spawner>(
    entry: MessageHandler<H, S>,
    m0: StoreModel,
    m: StoreModel,
    packet: &Packet<Vec<u8>>,
    w0: World,
    w1: World,
    panic_happened: bool,
    r: Dispatched,
) -> bool {
    match entry {
        MessageHandler::Unassigned => w1 == w0,
        MessageHandler::OnMessage { handler, critical } => {
            if !runs(critical, panic_happened) {
                w1 == w0
            } else {
                match r {
                    Dispatched::Instance(d) => instance_ran(
                        &handler,
                        m0,
                        m,
                        packet,
                        w0,
                        w1,
                        packet.recipient_id.instance_id as int,
                        d,
                    ),
                    Dispatched::Broadcast(report) => broadcast_ran(
                        &handler,
                        m0,
                        m,
                        packet,
                        w0,
                        w1,
                        report,
                    ),
                    _ => false,
                }
            }
        },
        MessageHandler::OnSpawn { spawner, critical } => {
            if !runs(critical, panic_happened) {
                w1 == w0
            } else {
                exists|out: Result<Instance, Panicked>| #[trigger]
                    spawned(&spawner, packet, w0, out, w1) && spawn_placed(m0, m, w1, out, r)
            }
        },
    }
}

/// What is registered for a message type; nothing for a type beyond the table.
pub open spec fn entry_for<H, S>(handlers: Seq<MessageHandler<H, S>>, message_type: int) -> MessageHandler<
    H,
    S,
> {
    if 0 <= message_type < handlers.len() {
        handlers[message_type]
    } else {
        MessageHandler::Unassigned
    }
}

/// What the dispatch of the message in a frame has done, and what it has
/// to do with what is registered for the type of the message: the frame
/// holds a packet that was dispatched as `dispatch_result` and
/// `dispatch_ran` say.
pub open spec fn message_ran<H: Handler, S: Spawner>(
    handlers: Seq<MessageHandler<H, S>>,
    frame: Seq<u8>,
    m0: StoreModel,
    m: StoreModel,
    w0: World,
    w1: World,
    panic_happened: bool,
    r: Dispatched,
) -> bool {
    exists|packet: DispatchablePacket|
        {
            &&& #[trigger] decodes(frame, packet)
            &&& dispatch_result(
                m0,
                m,
                entry_for(handlers, packet.message_type@ as int),
                packet.packet.recipient_id@,
                panic_happened,
                r,
            )
            &&& dispatch_ran(
                entry_for(handlers, packet.message_type@ as int),
                m0,
                m,
                &packet.packet,
                w0,
                w1,
                panic_happened,
                r,
            )
        }
}

/// Whether the first frames were dispatched in order, as many as there are
/// `results`: the dispatch of the frame with the number `j` found the store
/// `stores[j]` and the world `worlds[j]`, left the store `stores[j + 1]` and
/// the world `worlds[j + 1]`, and ended as `results[j]` says.
pub open spec fn messages_done<H: Handler, S: Spawner>(
    handlers: Seq<MessageHandler<H, S>>,
    frames: Seq<Seq<u8>>,
    stores: Seq<StoreModel>,
    worlds: Seq<World>,
    results: Seq<Dispatched>,
    panic_happened: bool,
) -> bool {
    &&& results.len() <= frames.len()
    &&& stores.len() == results.len() + 1
    &&& worlds.len() == results.len() + 1
    &&& forall|j: int|
        #![trigger results[j]]
        0 <= j < results.len() ==> message_ran(
            handlers,
            frames[j],
            stores[j],
            stores[j + 1],
            worlds[j],
            worlds[j + 1],
            panic_happened,
            results[j],
        )
}

/// The recipients that were not found, in the order of their frames: those
/// of the frames whose dispatch went to one recipient and found none.
pub open spec fn unfound(frames: Seq<Seq<u8>>, results: Seq<Dispatched>) -> Seq<RawIDView>
    decreases results.len(),
{
    if results.len() == 0 {
        Seq::empty()
    } else {
        let rest = unfound(frames, results.drop_last());
        if results.last() matches Dispatched::Instance(Delivery::NotFound) {
            rest.push(frame_recipient(frames[results.len() - 1]))
        } else {
            rest
        }
    }
}

/// The ids in a sequence, as plain values.
pub open spec fn id_views(ids: Seq<RawID>) -> Seq<RawIDView> {
    ids.map_values(|id: RawID| id@)
}

/// What a pass of a class over its inbox has to do with what the class has
/// registered. The frames were dispatched in order, from the store `m0`
/// and the world `w0` to the store `m` and the world `w1`: all of them
/// where no dispatch failed, and else those up to the one that failed.
/// Only the last dispatch can have failed, and `failed` says how it did.
/// The recipients that were not found are `not_found`, and the frames that
/// were not dispatched are `rest`.
pub open spec fn messages_ran<H: Handler, S: Spawner>(
    handlers: Seq<MessageHandler<H, S>>,
    frames: Seq<Seq<u8>>,
    m0: StoreModel,
    m: StoreModel,
    w0: World,
    w1: World,
    panic_happened: bool,
    failed: Option<Failure>,
    not_found: Seq<RawIDView>,
    rest: Seq<Seq<u8>>,
) -> bool {
    exists|stores: Seq<StoreModel>, worlds: Seq<World>, results: Seq<Dispatched>|
        {
            &&& #[trigger] messages_done(handlers, frames, stores, worlds, results, panic_happened)
            &&& stores[0] == m0
            &&& worlds[0] == w0
            &&& stores[results.len() as int] == m
            &&& worlds[results.len() as int] == w1
            &&& failed is None ==> results.len() == frames.len()
            &&& failed matches Some(f) ==> results.len() >= 1 && results[results.len() - 1]
                == f.dispatched
            &&& not_found == unfound(frames, results)
            &&& rest == frames.skip(results.len() as int)
            &&& forall|j: int|
                #![trigger results[j]]
                0 <= j < results.len() ==> (results[j].is_failure() <==> failed is Some && j
                    == results.len() - 1)
        }
}

/// Whether the store `m` can come from the store `m0` by the dispatch of
/// the given frames in order, each without failure.
pub open spec fn dispatched_all<H, S>(
    m0: StoreModel,
    m: StoreModel,
    handlers: Seq<MessageHandler<H, S>>,
    frames: Seq<Seq<u8>>,
    panic_happened: bool,
) -> bool
    decreases frames.len(),
{
    if frames.len() == 0 {
        m == m0
    } else {
        exists|mid: StoreModel, r: Dispatched|
            {
                &&& dispatched_all(m0, mid, handlers, frames.drop_last(), panic_happened)
                &&& !r.is_failure()
                &&& #[trigger] dispatch_result(
                    mid,
                    m,
                    entry_for(handlers, frame_message_type(frames.last()) as int),
                    frame_recipient(frames.last()),
                    panic_happened,
                    r,
                )
            }
    }
}

/// The number of frames of a message type.
pub open spec fn count_type(frames: Seq<Seq<u8>>, message_type: int) -> nat
    decreases frames.len(),
{
    if frames.len() == 0 {
        0
    } else {
        count_type(frames.drop_last(), message_type) + if frame_message_type(frames.last())
            == message_type {
            1nat
        } else {
            0nat
        }
    }
}

/// A counter after `n` more messages: it stops at the largest number it can hold.
pub open spec fn counted(before: usize, n: nat) -> usize {
    if before + n > usize::MAX {
        usize::MAX
    } else {
        (before + n) as usize
    }
}

impl<H, S> ActorVTable<H, S> {
    /// The dispatch table of a class for which nothing is registered yet.
    pub fn new_for_actor_type(name: String, typical_size: usize) -> (v_table: ActorVTable<
        H,
        S,
    >)
        ensures
            v_table.message_handlers@.len() == MAX_MESSAGE_TYPES,
            forall|i: int|
                0 <= i < MAX_MESSAGE_TYPES ==> #[trigger] v_table.message_handlers@[i] is Unassigned,
            v_table.name == name,
            v_table.state_v_table.typical_size == typical_size,
    {
        let mut message_handlers: Vec<MessageHandler<H, S>> = Vec::new();
        let mut i: usize = 0;
        while i < MAX_MESSAGE_TYPES
            invariant
                i <= MAX_MESSAGE_TYPES,
                message_handlers@.len() == i,
                forall|k: int| 0 <= k < i ==> #[trigger] message_handlers@[k] is Unassigned,
            decreases MAX_MESSAGE_TYPES - i,
        {
            message_handlers.push(MessageHandler::Unassigned);
            i += 1;
        }
        ActorVTable {
            message_handlers,
            state_v_table: ActorStateVTable { typical_size },
            name,
        }
    }
}

impl<H: Handler, S: Spawner> Class<H, S> {
    /// The store and the inbox are well formed, and the dispatch table has
    /// an entry for each of the 256 message types.
    pub open spec fn wf(&self) -> bool {
        &&& self.instance_store.wf()
        &&& self.inbox.wf()
        &&& self.v_table.message_handlers@.len() == MAX_MESSAGE_TYPES
    }

    /// A class without instances and without messages.
    pub fn new(v_table: ActorVTable<H, S>, tuning: &Tuning) -> (class: Class<H, S>)
        requires
            v_table.message_handlers@.len() == MAX_MESSAGE_TYPES,
            v_table.state_v_table.typical_size >= 1,
        ensures
            class.wf(),
            class.v_table == v_table,
            class.inbox@ == Seq::<Seq<u8>>::empty(),
            class.instance_store.model().count == 0,
            class.instance_store.model().arena.len() == 0,
            class.instance_store.model().entries.len() == 0,
            class.instance_store.model().base == v_table.state_v_table.typical_size,
    {
        let instance_store = InstanceStore::new(v_table.state_v_table.typical_size, tuning);
        let inbox = Inbox::new(tuning);
        Class { instance_store, v_table, inbox }
    }

    /// Registers the handler for the messages of a type. What was
    /// registered for the type before is replaced.
    pub fn add_handler(&mut self, message_id: ShortTypeId, handler: H, critical: bool)
        requires
            old(self).wf(),
            message_id@ < MAX_MESSAGE_TYPES,
        ensures
            final(self).wf(),
            final(self).v_table.message_handlers@ == old(self).v_table.message_handlers@.update(
                message_id@ as int,
                MessageHandler::OnMessage { handler, critical },
            ),
            final(self).instance_store == old(self).instance_store,
            final(self).inbox == old(self).inbox,
    {
        self.v_table.message_handlers[message_id.as_usize()] = MessageHandler::OnMessage {
            handler,
            critical,
        };
    }

    /// Registers the spawner for the messages of a type. What was
    /// registered for the type before is replaced.
    pub fn add_spawner(&mut self, message_id: ShortTypeId, spawner: S, critical: bool)
        requires
            old(self).wf(),
            message_id@ < MAX_MESSAGE_TYPES,
        ensures
            final(self).wf(),
            final(self).v_table.message_handlers@ == old(self).v_table.message_handlers@.update(
                message_id@ as int,
                MessageHandler::OnSpawn { spawner, critical },
            ),
            final(self).instance_store == old(self).instance_store,
            final(self).inbox == old(self).inbox,
    {
        self.v_table.message_handlers[message_id.as_usize()] = MessageHandler::OnSpawn {
            spawner,
            critical,
        };
    }

    /// Whether a message of a type can be dispatched: something is
    /// registered for the type, or a handler has panicked, after which a
    /// message without handler is passed over.
    pub open spec fn can_dispatch(
        handlers: Seq<MessageHandler<H, S>>,
        message_type: int,
        panic_happened: bool,
    ) -> bool {
        &&& 0 <= message_type < handlers.len()
        &&& !(handlers[message_type] is Unassigned) || panic_happened
    }

    /// Does with the answer of a spawner what it asks for: the instance
    /// that it made is added to the store under its id, where the store
    /// takes it, and is rejected where not; a panic leaves the store as it
    /// was.
    pub fn place_spawned(
        instance_store: &mut InstanceStore,
        outcome: Result<Instance, Panicked>,
        world: &World,
    ) -> (r: Dispatched)
        requires
            old(instance_store).wf(),
        ensures
            final(instance_store).wf(),
            spawn_placed(
                old(instance_store).model(),
                final(instance_store).model(),
                *world,
                outcome,
                r,
            ),
    {
        match outcome {
            Err(_) => Dispatched::SpawnPanicked,
            Ok(instance) => {
                let id = instance.id;
                let ghost m0 = instance_store.model();
                instance_store.admit_ids(world.allocated_ids(id.type_id));
                match instance_store.add(instance) {
                    Ok(()) => {
                        proof {
                            assert(instance_store.instances().dom() =~= m0.instances().dom().insert(
                                id.instance_id as int,
                            ));
                        }
                        Dispatched::Spawned(id)
                    },
                    Err(e) => Dispatched::SpawnRejected(e),
                }
            },
        }
    }

    /// Dispatches one message by what the class has registered for its
    /// type. A handler runs on the recipient, or on every instance where the
    /// recipient is a broadcast; a spawner makes an instance, which is added
    /// to the store. After a panic only what is critical runs, and a message
    /// for whose type nothing is registered is passed over.
    ///
    /// What ran was handed the packet, the world as it was, and for a
    /// handler the state of its instance; the result, the store and the
    /// world follow its answer.
    pub fn dispatch_packet(
        instance_store: &mut InstanceStore,
        v_table: &ActorVTable<H, S>,
        message_type: ShortTypeId,
        packet: &Packet<Vec<u8>>,
        world: &mut World,
        panic_happened: bool,
    ) -> (r: Dispatched)
        requires
            old(instance_store).wf(),
            Self::can_dispatch(v_table.message_handlers@, message_type@ as int, panic_happened),
        ensures
            final(instance_store).wf(),
            dispatch_result(
                old(instance_store).model(),
                final(instance_store).model(),
                v_table.message_handlers@[message_type@ as int],
                packet.recipient_id@,
                panic_happened,
                r,
            ),
            dispatch_ran(
                v_table.message_handlers@[message_type@ as int],
                old(instance_store).model(),
                final(instance_store).model(),
                packet,
                *old(world),
                *final(world),
                panic_happened,
                r,
            ),
            !(r is Unassigned),
            r is Skipped ==> *final(world) == *old(world),
            r matches Dispatched::Instance(d) ==> (d is NotFound ==> *final(world) == *old(world))
                && (d is Died ==> reusable(
                *final(world),
                old(instance_store).instances()[packet.recipient_id.instance_id as int].id,
            )),
            r matches Dispatched::Broadcast(report) ==> (report.delivered@.len() == 0 ==> *final(world) == *old(world)),
    {
        match &v_table.message_handlers[message_type.as_usize()] {
            MessageHandler::OnMessage { handler, critical } => {
                if *critical || !panic_happened {
                    if packet.recipient_id.is_broadcast() {
                        Dispatched::Broadcast(
                            instance_store.receive_broadcast(packet, world, handler),
                        )
                    } else {
                        Dispatched::Instance(
                            instance_store.receive_instance(
                                packet.recipient_id,
                                packet,
                                world,
                                handler,
                            ),
                        )
                    }
                } else {
                    Dispatched::Skipped
                }
            },
            MessageHandler::OnSpawn { spawner, critical } => {
                if *critical || !panic_happened {
                    let mut lent = World::new(MachineID(0), 0);
                    core::mem::swap(world, &mut lent);
                    let ghost w0 = lent;
                    let ran = run_spawner(spawner, packet, lent);
                    let outcome = ran.0;
                    let mut lent = ran.1;
                    let ghost w1 = lent;
                    core::mem::swap(world, &mut lent);
                    proof {
                        assert(spawned(spawner, packet, w0, outcome, w1));
                    }
                    Self::place_spawned(instance_store, outcome, world)
                } else {
                    Dispatched::Skipped
                }
            },
            MessageHandler::Unassigned => {
                if panic_happened {
                    Dispatched::Skipped
                } else {
                    Dispatched::Unassigned
                }
            },
        }
    }

    /// Handles the messages that wait in the inbox now, oldest first, and
    /// counts each by its type. Messages that come in meanwhile wait for the
    /// next pass. A dispatch that fails ends the pass: the message that
    /// failed is gone and not counted, and those behind it stay in the inbox.
    ///
    /// Each message was dispatched on the store and the world as the
    /// message before left them, by what is registered for its type; what
    /// ran for it and what that was handed is told by `messages_ran`.
    pub fn handle_messages(
        &mut self,
        message_statistics: &mut Vec<usize>,
        world: &mut World,
        panic_happened: bool,
    ) -> (report: CycleReport)
        requires
            old(self).wf(),
            old(message_statistics)@.len() == MAX_MESSAGE_TYPES,
        ensures
            final(self).wf(),
            final(self).v_table == old(self).v_table,
            final(message_statistics)@.len() == MAX_MESSAGE_TYPES,
            report.handled <= old(self).inbox@.len(),
            report.failure is None ==> report.handled == old(self).inbox@.len() && final(self).inbox@ == Seq::<Seq<u8>>::empty(),
            report.failure matches Some(failure) ==> report.handled < old(self).inbox@.len()
                && final(self).inbox@ == old(self).inbox@.skip(report.handled + 1)
                && failure.dispatched.is_failure() && failure.message_type@ == frame_message_type(
                old(self).inbox@[report.handled as int],
            ),
            forall|t: int|
                0 <= t < MAX_MESSAGE_TYPES ==> #[trigger] final(message_statistics)@[t] == counted(
                    old(message_statistics)@[t],
                    count_type(old(self).inbox@.subrange(0, report.handled as int), t),
                ),
            old(self).inbox@.len() == 0 ==> *final(world) == *old(world),
            report.failure is None ==> dispatched_all(
                old(self).instance_store.model(),
                final(self).instance_store.model(),
                old(self).v_table.message_handlers@,
                old(self).inbox@.subrange(0, report.handled as int),
                panic_happened,
            ),
            report.failure matches Some(failure) ==> exists|mid: StoreModel| #[trigger]
                dispatched_all(
                    old(self).instance_store.model(),
                    mid,
                    old(self).v_table.message_handlers@,
                    old(self).inbox@.subrange(0, report.handled as int),
                    panic_happened,
                ) && dispatch_result(
                    mid,
                    final(self).instance_store.model(),
                    entry_for(
                        old(self).v_table.message_handlers@,
                        failure.message_type@ as int,
                    ),
                    frame_recipient(old(self).inbox@[report.handled as int]),
                    panic_happened,
                    failure.dispatched,
                ),
            messages_ran(
                old(self).v_table.message_handlers@,
                old(self).inbox@,
                old(self).instance_store.model(),
                final(self).instance_store.model(),
                *old(world),
                *final(world),
                panic_happened,
                report.failure,
                id_views(report.not_found@),
                final(self).inbox@,
            ),
    {
        let ghost frames = self.inbox@;
        let mut iterator = self.inbox.drain();
        let waiting = iterator.len();
        let mut handled: usize = 0;
        let mut not_found: Vec<RawID> = Vec::new();
        let mut failure: Option<Failure> = None;
        let ghost handlers = self.v_table.message_handlers@;
        let ghost mut stores: Seq<StoreModel> = seq![self.instance_store.model()];
        let ghost mut worlds: Seq<World> = seq![*world];
        let ghost mut results: Seq<Dispatched> = Seq::empty();
        assert(frames.subrange(0, 0) =~= Seq::<Seq<u8>>::empty());
        assert(frames.skip(0) =~= frames);
        loop
            invariant_except_break
                failure is None,
                handled == 0 ==> *world == *old(world),
                frames.len() == waiting,
                frames == old(self).inbox@,
                old(message_statistics)@.len() == MAX_MESSAGE_TYPES,
                self.instance_store.wf(),
                self.inbox.wf(),
                self.inbox@ == Seq::<Seq<u8>>::empty(),
                self.v_table == old(self).v_table,
                self.v_table.message_handlers@.len() == MAX_MESSAGE_TYPES,
                iterator.wf(),
                handled <= frames.len(),
                iterator.remaining() == frames.skip(handled as int),
                message_statistics@.len() == MAX_MESSAGE_TYPES,
                forall|t: int|
                    0 <= t < MAX_MESSAGE_TYPES ==> #[trigger] message_statistics@[t] == counted(
                        old(message_statistics)@[t],
                        count_type(frames.subrange(0, handled as int), t),
                    ),
                dispatched_all(
                    old(self).instance_store.model(),
                    self.instance_store.model(),
                    self.v_table.message_handlers@,
                    frames.subrange(0, handled as int),
                    panic_happened,
                ),
            invariant
                handlers == old(self).v_table.message_handlers@,
                messages_done(handlers, frames, stores, worlds, results, panic_happened),
                results.len() == handled + (if failure is Some {
                    1int
                } else {
                    0int
                }),
                stores[0] == old(self).instance_store.model(),
                worlds[0] == *old(world),
                stores[results.len() as int] == self.instance_store.model(),
                worlds[results.len() as int] == *world,
                failure matches Some(f) ==> results[handled as int] == f.dispatched
                    && f.dispatched.is_failure(),
                forall|j: int|
                    #![trigger results[j]]
                    0 <= j < handled ==> !results[j].is_failure(),
                id_views(not_found@) == unfound(frames, results),
            ensures
                frames.len() == 0 ==> *world == *old(world),
                frames == old(self).inbox@,
                old(message_statistics)@.len() == MAX_MESSAGE_TYPES,
                self.wf(),
                self.v_table == old(self).v_table,
                handled <= frames.len(),
                failure is None ==> handled == frames.len() && self.inbox@ == Seq::<
                    Seq<u8>,
                >::empty() && dispatched_all(
                    old(self).instance_store.model(),
                    self.instance_store.model(),
                    self.v_table.message_handlers@,
                    frames.subrange(0, handled as int),
                    panic_happened,
                ),
                failure matches Some(f) ==> handled < frames.len() && self.inbox@ == frames.skip(
                    handled + 1,
                ) && f.dispatched.is_failure() && f.message_type@ == frame_message_type(
                    frames[handled as int],
                ),
                failure matches Some(f) ==> exists|inner: StoreModel| #[trigger]
                    dispatched_all(
                        old(self).instance_store.model(),
                        inner,
                        old(self).v_table.message_handlers@,
                        frames.subrange(0, handled as int),
                        panic_happened,
                    ) && dispatch_result(
                        inner,
                        self.instance_store.model(),
                        entry_for(old(self).v_table.message_handlers@, f.message_type@ as int),
                        frame_recipient(frames[handled as int]),
                        panic_happened,
                        f.dispatched,
                    ),
                message_statistics@.len() == MAX_MESSAGE_TYPES,
                forall|t: int|
                    0 <= t < MAX_MESSAGE_TYPES ==> #[trigger] message_statistics@[t] == counted(
                        old(message_statistics)@[t],
                        count_type(frames.subrange(0, handled as int), t),
                    ),
            decreases frames.len() - handled,
        {
            let next = iterator.next();
            let dispatchable = match next {
                None => {
                    break ;
                },
                Some(dispatchable) => dispatchable,
            };
            let ghost frame = frames[handled as int];
            assert(frame == frames.skip(handled as int)[0]);
            let ghost mid = self.instance_store.model();
            let ghost world_before = *world;
            let ghost stores0 = stores;
            let ghost worlds0 = worlds;
            let ghost results0 = results;
            let message_type = dispatchable.message_type;
            let index = message_type.as_usize();
            let registered = index < MAX_MESSAGE_TYPES && match &self.v_table.message_handlers[index] {
                MessageHandler::Unassigned => false,
                _ => true,
            };
            let dispatched = if registered || (index < MAX_MESSAGE_TYPES && panic_happened) {
                Self::dispatch_packet(
                    &mut self.instance_store,
                    &self.v_table,
                    message_type,
                    &dispatchable.packet,
                    world,
                    panic_happened,
                )
            } else if panic_happened {
                Dispatched::Skipped
            } else {
                Dispatched::Unassigned
            };
            proof {
                stores = stores.push(self.instance_store.model());
                worlds = worlds.push(*world);
                results = results.push(dispatched);
                assert(results.drop_last() == results0);
                assert(decodes(frame, dispatchable));
                assert(message_ran(
                    handlers,
                    frame,
                    mid,
                    self.instance_store.model(),
                    world_before,
                    *world,
                    panic_happened,
                    dispatched,
                ));
                assert forall|j: int|
                    #![trigger results[j]]
                    0 <= j < results.len() implies message_ran(
                    handlers,
                    frames[j],
                    stores[j],
                    stores[j + 1],
                    worlds[j],
                    worlds[j + 1],
                    panic_happened,
                    results[j],
                ) by {
                    if j < results0.len() {
                        assert(results[j] == results0[j]);
                        assert(stores[j] == stores0[j]);
                        assert(stores[j + 1] == stores0[j + 1]);
                        assert(worlds[j] == worlds0[j]);
                        assert(worlds[j + 1] == worlds0[j + 1]);
                    }
                }
            }
            if dispatched.failed() {
                assert(dispatch_result(
                    mid,
                    self.instance_store.model(),
                    entry_for(self.v_table.message_handlers@, message_type@ as int),
                    frame_recipient(frame),
                    panic_happened,
                    dispatched,
                ));
                assert(frames.skip(handled as int).skip(1) =~= frames.skip(handled + 1));
                let ghost store_after = self.instance_store.model();
                self.inbox.put_back(iterator);
                assert(self.inbox@ =~= frames.skip(handled + 1));
                assert(dispatched_all(
                    old(self).instance_store.model(),
                    mid,
                    old(self).v_table.message_handlers@,
                    old(self).inbox@.subrange(0, handled as int),
                    panic_happened,
                ) && dispatch_result(
                    mid,
                    store_after,
                    entry_for(old(self).v_table.message_handlers@, message_type@ as int),
                    frame_recipient(old(self).inbox@[handled as int]),
                    panic_happened,
                    dispatched,
                ));
                assert(self.instance_store.model() == store_after);
                failure = Some(Failure { message_type, dispatched });
                break ;
            }
            let ghost found = not_found@;
            match dispatched {
                Dispatched::Instance(Delivery::NotFound) => {
                    not_found.push(dispatchable.packet.recipient_id);
                    assert(id_views(not_found@) =~= id_views(found).push(
                        dispatchable.packet.recipient_id@,
                    ));
                },
                _ => {},
            }
            let ghost before = message_statistics@;
            if index < MAX_MESSAGE_TYPES {
                let n = message_statistics[index];
                if n < usize::MAX {
                    message_statistics[index] = n + 1;
                }
            }
            proof {
                assert(frames.subrange(0, handled + 1).drop_last() =~= frames.subrange(
                    0,
                    handled as int,
                ));
                assert(frames.subrange(0, handled + 1).last() == frame);
                assert(dispatch_result(
                    mid,
                    self.instance_store.model(),
                    entry_for(self.v_table.message_handlers@, frame_message_type(frame) as int),
                    frame_recipient(frame),
                    panic_happened,
                    dispatched,
                ));
                assert(frames.skip(handled as int).skip(1) =~= frames.skip(handled + 1));
                assert forall|t: int| 0 <= t < MAX_MESSAGE_TYPES implies #[trigger] message_statistics@[t]
                    == counted(
                    old(message_statistics)@[t],
                    count_type(frames.subrange(0, handled + 1), t),
                ) by {
                    assert(before[t] == counted(
                        old(message_statistics)@[t],
                        count_type(frames.subrange(0, handled as int), t),
                    ));
                }
            }
            handled = handled + 1;
        }
        proof {
            assert(self.inbox@ =~= frames.skip(results.len() as int));
        }
        CycleReport { handled, not_found, failure }
    }
}

} // verus!
