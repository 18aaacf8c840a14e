use crate::id::{MachineID, RawID};
use crate::messaging::Message;
use crate::type_registry::ShortTypeId;
use vstd::prelude::*;

verus! {

/// A message on its way: what a handler sent and the system has yet to route.
pub struct Envelope {
    /// The recipient.
    pub recipient: RawID,
    /// The type of the message.
    pub message_type: ShortTypeId,
    /// The bytes of the message.
    pub payload: Vec<u8>,
}

/// Hands out the instance ids of one class: ids of dead instances first,
/// each with the version after the one that died, then ids never used.
pub struct IdAllocator {
    free_ids_with_versions: Vec<(u32, u8)>,
    next_id: u32,
}

impl IdAllocator {
    /// The ids that wait for reuse, with the version each will get; the last is handed out first.
    pub closed spec fn free_ids(&self) -> Seq<(u32, u8)> {
        self.free_ids_with_versions@
    }

    /// The number of ids that were handed out fresh: the smallest id never used.
    pub closed spec fn next_id(&self) -> u32 {
        self.next_id
    }

    /// An allocator that has handed out no id.
    pub fn new() -> (a: IdAllocator)
        ensures
            a.free_ids() == Seq::<(u32, u8)>::empty(),
            a.next_id() == 0,
    {
        IdAllocator { free_ids_with_versions: Vec::new(), next_id: 0 }
    }

    /// The smallest id never used.
    pub fn allocated_ids(&self) -> (n: u32)
        ensures
            n == self.next_id(),
    {
        self.next_id
    }

    /// An instance id and its version: the id freed last, if one waits, else
    /// the next unused id with version 0. `None` once every id is in use; the
    /// id that stands for a broadcast is never handed out.
    pub fn allocate_id(&mut self) -> (r: Option<(u32, u8)>)
        ensures
            old(self).free_ids().len() > 0 ==> r == Some(old(self).free_ids().last()) && final(self).free_ids()
                == old(self).free_ids().drop_last() && final(self).next_id() == old(self).next_id(),
            old(self).free_ids().len() == 0 && old(self).next_id() < 0xFFFF_FFFF ==> r == Some(
                (old(self).next_id(), 0u8),
            ) && final(self).free_ids() == old(self).free_ids() && final(self).next_id() == old(self).next_id() + 1,
            old(self).free_ids().len() == 0 && old(self).next_id() == 0xFFFF_FFFF ==> r is None
                && final(self).free_ids() == old(self).free_ids() && final(self).next_id() == old(self).next_id(),
    {
        match self.free_ids_with_versions.pop() {
            Some(pair) => Some(pair),
            None => {
                if self.next_id < u32::MAX {
                    let id = self.next_id;
                    self.next_id = id + 1;
                    Some((id, 0))
                } else {
                    None
                }
            },
        }
    }

    /// Takes back the id of an instance that died with the given version.
    /// The id will be handed out again with the next version, which follows
    /// 255 with 0.
    pub fn free(&mut self, id: u32, version: u8)
        ensures
            final(self).free_ids() == old(self).free_ids().push((id, next_version(version))),
            final(self).next_id() == old(self).next_id(),
    {
        self.free_ids_with_versions.push((id, version.wrapping_add(1)));
    }
}

/// The version that follows `version`: one more, and 0 after 255.
pub open spec fn next_version(version: u8) -> u8 {
    if version == 0xFF {
        0
    } else {
        (version + 1) as u8
    }
}

/// What asking for an instance id of a class has done. `before` is the world
/// before, `after` the world after, `r` the answer.
///
/// A class without allocator gets no id, and nothing changes. Else the id is
/// the one freed last, with the version that follows the one it died with,
/// and it waits no more; or, where none waits, the next unused instance id
/// with version 0; or none, where every id is used. The id is of the class
/// and on the machine of the world. Nothing else changes.
pub open spec fn allocated(before: World, after: World, type_id: ShortTypeId, r: Option<RawID>) -> bool {
    &&& r == before.would_allocate(type_id)
    &&& after.outbox() == before.outbox()
    &&& after.machine_id() == before.machine_id()
    &&& after.spec_panic_happened() == before.spec_panic_happened()
    &&& after.allocators().len() == before.allocators().len()
    &&& forall|i: int|
        0 <= i < before.allocators().len() && i != type_id@ ==> after.allocators()[i]
            == before.allocators()[i]
    &&& !before.knows_class(type_id) ==> r is None && after.allocators() == before.allocators()
    &&& before.knows_class(type_id) ==> {
        let a = before.allocators()[type_id@ as int]->0;
        let b = after.allocators()[type_id@ as int];
        &&& b is Some
        &&& a.free_ids().len() > 0 ==> b->0.free_ids() == a.free_ids().drop_last() && b->0.next_id()
            == a.next_id() && r == Some(
            RawID {
                type_id,
                instance_id: a.free_ids().last().0,
                machine: before.machine_id(),
                version: a.free_ids().last().1,
            },
        )
        &&& a.free_ids().len() == 0 && a.next_id() < 0xFFFF_FFFF ==> b->0.free_ids() == a.free_ids()
            && b->0.next_id() == a.next_id() + 1 && r == Some(
            RawID {
                type_id,
                instance_id: a.next_id(),
                machine: before.machine_id(),
                version: 0,
            },
        )
        &&& a.free_ids().len() == 0 && a.next_id() == 0xFFFF_FFFF ==> b->0.free_ids()
            == a.free_ids() && b->0.next_id() == a.next_id() && r is None
    }
}

/// What a handler sees of the actor system: it can send messages, ask for
/// the ids of new instances, and learn where and in what state the system
/// runs. The system routes the messages sent through it when the class of
/// the handler has finished its pass over its inbox.
pub struct World {
    machine_id: MachineID,
    panic_happened: bool,
    outbox: Vec<Envelope>,
    allocators: Vec<Option<IdAllocator>>,
}

impl World {
    /// The machine the system runs on.
    pub closed spec fn machine_id(&self) -> MachineID {
        self.machine_id
    }

    /// Whether a handler has panicked.
    pub closed spec fn spec_panic_happened(&self) -> bool {
        self.panic_happened
    }

    /// The messages sent and not yet routed, oldest first.
    pub closed spec fn outbox(&self) -> Seq<Envelope> {
        self.outbox@
    }

    /// The id allocators by class id; a class that is not registered has none.
    pub closed spec fn allocators(&self) -> Seq<Option<IdAllocator>> {
        self.allocators@
    }

    /// Whether instance ids of the class can be asked for.
    pub open spec fn knows_class(&self, type_id: ShortTypeId) -> bool {
        type_id@ < self.allocators().len() && self.allocators()[type_id@ as int] is Some
    }

    /// The id that asking for an instance id of a class gives: none for a
    /// class without allocator; else the id that was freed last, with the
    /// version it was freed for; or, where none waits, the next unused
    /// instance id with version 0; or none, where every id is used.
    pub open spec fn would_allocate(&self, type_id: ShortTypeId) -> Option<RawID> {
        if !self.knows_class(type_id) {
            None
        } else {
            let a = self.allocators()[type_id@ as int]->0;
            if a.free_ids().len() > 0 {
                Some(
                    RawID {
                        type_id,
                        instance_id: a.free_ids().last().0,
                        machine: self.machine_id(),
                        version: a.free_ids().last().1,
                    },
                )
            } else if a.next_id() < 0xFFFF_FFFF {
                Some(
                    RawID {
                        type_id,
                        instance_id: a.next_id(),
                        machine: self.machine_id(),
                        version: 0,
                    },
                )
            } else {
                None
            }
        }
    }

    /// Makes the world that of the given machine, with room for the classes
    /// with ids below `n_classes`. The allocators of these classes stay as
    /// they are; a world that fits already is not changed.
    pub fn fit(&mut self, machine_id: MachineID, n_classes: usize)
        ensures
            final(self).machine_id() == machine_id,
            final(self).allocators().len() == n_classes,
            forall|i: int|
                0 <= i < n_classes ==> #[trigger] final(self).allocators()[i] == (if i < old(self).allocators().len() {
                    old(self).allocators()[i]
                } else {
                    None
                }),
            final(self).outbox() == old(self).outbox(),
            final(self).spec_panic_happened() == old(self).spec_panic_happened(),
            old(self).machine_id() == machine_id && old(self).allocators().len() == n_classes
                ==> *final(self) == *old(self),
    {
        if self.machine_id.0 != machine_id.0 {
            self.machine_id = machine_id;
        }
        if self.allocators.len() > n_classes {
            self.allocators.truncate(n_classes);
            return ;
        }
        while self.allocators.len() < n_classes
            invariant
                self.machine_id() == machine_id,
                self.outbox() == old(self).outbox(),
                self.spec_panic_happened() == old(self).spec_panic_happened(),
                self.allocators().len() <= n_classes,
                self.allocators().len() >= old(self).allocators().len(),
                self.allocators().len() == old(self).allocators().len() && old(self).machine_id()
                    == machine_id ==> *self == *old(self),
                forall|i: int|
                    0 <= i < self.allocators().len() ==> #[trigger] self.allocators()[i] == (if i
                        < old(self).allocators().len() {
                        old(self).allocators()[i]
                    } else {
                        None
                    }),
            decreases n_classes - self.allocators().len(),
        {
            self.allocators.push(None);
        }
    }

    /// Gives a class a new id allocator, in place of what it had, unless
    /// its id is out of range.
    pub fn install_class(&mut self, type_id: ShortTypeId)
        ensures
            final(self).outbox() == old(self).outbox(),
            final(self).machine_id() == old(self).machine_id(),
            final(self).spec_panic_happened() == old(self).spec_panic_happened(),
            final(self).allocators().len() == old(self).allocators().len(),
            forall|i: int|
                0 <= i < old(self).allocators().len() && i != type_id@ ==> final(self).allocators()[i] == old(self).allocators()[i],
            type_id@ >= old(self).allocators().len() ==> *final(self) == *old(self),
            type_id@ < old(self).allocators().len() ==> final(self).knows_class(type_id) && final(self).allocators()[type_id@ as int]->0.free_ids().len() == 0 && final(self).allocators()[type_id@ as int]->0.next_id() == 0,
    {
        let index = type_id.as_usize();
        if index < self.allocators.len() {
            self.allocators[index] = Some(IdAllocator::new());
        }
    }

    /// A world of the given machine with room for classes below `n_classes`, none registered.
    pub fn new(machine_id: MachineID, n_classes: usize) -> (w: World)
        ensures
            w.machine_id() == machine_id,
            !w.spec_panic_happened(),
            w.outbox() == Seq::<Envelope>::empty(),
            w.allocators().len() == n_classes,
            forall|i: int| 0 <= i < n_classes ==> w.allocators()[i] is None,
    {
        let mut allocators: Vec<Option<IdAllocator>> = Vec::new();
        let mut i: usize = 0;
        while i < n_classes
            invariant
                i <= n_classes,
                allocators@.len() == i,
                forall|k: int| 0 <= k < i ==> allocators@[k] is None,
            decreases n_classes - i,
        {
            allocators.push(None);
            i += 1;
        }
        World { machine_id, panic_happened: false, outbox: Vec::new(), allocators }
    }

    /// Sends a message: it waits in the outbox until the system routes it.
    pub fn send_bytes(&mut self, recipient: RawID, message_type: ShortTypeId, payload: Vec<u8>)
        ensures
            final(self).outbox() == old(self).outbox().push(
                Envelope { recipient, message_type, payload },
            ),
            final(self).allocators() == old(self).allocators(),
            final(self).machine_id() == old(self).machine_id(),
            final(self).spec_panic_happened() == old(self).spec_panic_happened(),
    {
        self.outbox.push(Envelope { recipient, message_type, payload });
    }

    /// Sends a message in the bytes in which it lays itself out.
    pub fn send<M: Message>(&mut self, recipient: RawID, message_type: ShortTypeId, message: M)
        ensures
            exists|bytes: Vec<u8>| #[trigger]
                call_ensures(<M as Message>::encode, (&message,), bytes) && final(self).outbox()
                    == old(self).outbox().push(
                    Envelope { recipient, message_type, payload: bytes },
                ),
            final(self).outbox().len() == old(self).outbox().len() + 1,
            final(self).outbox().drop_last() == old(self).outbox(),
            final(self).outbox().last().recipient == recipient,
            final(self).outbox().last().message_type == message_type,
            final(self).allocators() == old(self).allocators(),
            final(self).machine_id() == old(self).machine_id(),
            final(self).spec_panic_happened() == old(self).spec_panic_happened(),
    {
        let payload = message.encode();
        assert(call_ensures(<M as Message>::encode, (&message,), payload));
        self.send_bytes(recipient, message_type, payload);
        assert(self.outbox().drop_last() =~= old(self).outbox());
    }

    /// The id of the first instance of a class on this machine, whether or not it exists.
    pub fn local_first(&self, type_id: ShortTypeId) -> (id: RawID)
        ensures
            id == (RawID { type_id, instance_id: 0, machine: self.machine_id(), version: 0 }),
    {
        RawID::new(type_id, 0, self.machine_id, 0)
    }

    /// The id of the first instance of a class on the first machine, whether or not it exists.
    pub fn global_first(&self, type_id: ShortTypeId) -> (id: RawID)
        ensures
            id == (RawID { type_id, instance_id: 0, machine: MachineID(0), version: 0 }),
    {
        RawID::new(type_id, 0, MachineID(0), 0)
    }

    /// The id that addresses every instance of a class on this machine.
    pub fn local_broadcast(&self, type_id: ShortTypeId) -> (id: RawID)
        ensures
            id == (RawID {
                type_id,
                instance_id: crate::id::spec_broadcast_instance_id(),
                machine: self.machine_id(),
                version: 0,
            }),
    {
        self.local_first(type_id).local_broadcast()
    }

    /// The id that addresses every instance of a class on every machine.
    pub fn global_broadcast(&self, type_id: ShortTypeId) -> (id: RawID)
        ensures
            id == (RawID {
                type_id,
                instance_id: crate::id::spec_broadcast_instance_id(),
                machine: MachineID(crate::id::spec_broadcast_machine_id()),
                version: 0,
            }),
    {
        self.local_first(type_id).global_broadcast()
    }

    /// The id for an instance that is about to be spawned: of the given
    /// class, on this machine, with the instance id and version that the
    /// allocator of the class hands out. `None` where the class is not
    /// registered or has no id left.
    pub fn allocate_instance_id(&mut self, type_id: ShortTypeId) -> (r: Option<RawID>)
        ensures
            allocated(*old(self), *final(self), type_id, r),
    {
        let index = type_id.as_usize();
        if index >= self.allocators.len() {
            return None;
        }
        let mut slot: Option<IdAllocator> = None;
        core::mem::swap(&mut slot, &mut self.allocators[index]);
        match slot {
            None => {
                assert(self.allocators() =~= old(self).allocators());
                None
            },
            Some(mut allocator) => {
                let allocated = allocator.allocate_id();
                self.allocators[index] = Some(allocator);
                match allocated {
                    Some((instance_id, version)) => Some(
                        RawID::new(type_id, instance_id, self.machine_id, version),
                    ),
                    None => None,
                }
            },
        }
    }

    /// The machine this system runs on.
    pub fn local_machine_id(&self) -> (id: MachineID)
        ensures
            id == self.machine_id(),
    {
        self.machine_id
    }

    /// Whether a handler has panicked, so that only critical handlers still run.
    #[verifier::when_used_as_spec(spec_panic_happened)]
    pub fn panic_happened(&self) -> (b: bool)
        ensures
            b == self.spec_panic_happened(),
    {
        self.panic_happened
    }

    /// Records whether a handler has panicked.
    pub fn set_panic_happened(&mut self, panic_happened: bool)
        ensures
            final(self).spec_panic_happened() == panic_happened,
            final(self).outbox() == old(self).outbox(),
            final(self).allocators() == old(self).allocators(),
            final(self).machine_id() == old(self).machine_id(),
    {
        self.panic_happened = panic_happened;
    }

    /// Gives a class its id allocator, unless it has one or its id is out of range.
    pub fn register_class(&mut self, type_id: ShortTypeId)
        ensures
            final(self).outbox() == old(self).outbox(),
            final(self).machine_id() == old(self).machine_id(),
            final(self).spec_panic_happened() == old(self).spec_panic_happened(),
            final(self).allocators().len() == old(self).allocators().len(),
            forall|i: int|
                0 <= i < old(self).allocators().len() && i != type_id@ ==> final(self).allocators()[i] == old(self).allocators()[i],
            old(self).knows_class(type_id) ==> final(self).allocators() == old(self).allocators(),
            type_id@ < old(self).allocators().len() ==> final(self).knows_class(type_id),
            type_id@ < old(self).allocators().len() && !old(self).knows_class(type_id) ==> {
                let a = final(self).allocators()[type_id@ as int]->0;
                a.free_ids().len() == 0 && a.next_id() == 0
            },
    {
        let index = type_id.as_usize();
        if index < self.allocators.len() {
            if self.allocators[index].is_none() {
                self.allocators[index] = Some(IdAllocator::new());
            } else {
                assert(self.allocators() =~= old(self).allocators());
            }
        }
    }

    /// The number of instance ids of a class that were ever handed out fresh;
    /// 0 for a class that is not registered.
    pub open spec fn known_ids(&self, type_id: ShortTypeId) -> nat {
        if self.knows_class(type_id) {
            self.allocators()[type_id@ as int]->0.next_id() as nat
        } else {
            0
        }
    }

    /// The number of instance ids of a class that were ever handed out fresh;
    /// 0 for a class that is not registered.
    pub fn allocated_ids(&self, type_id: ShortTypeId) -> (n: u32)
        ensures
            n == self.known_ids(type_id),
    {
        let index = type_id.as_usize();
        if index >= self.allocators.len() {
            return 0;
        }
        match &self.allocators[index] {
            Some(allocator) => allocator.allocated_ids(),
            None => 0,
        }
    }

    /// Takes back the id of an instance of a class that died with the given version.
    pub fn free_instance_id(&mut self, type_id: ShortTypeId, instance_id: u32, version: u8)
        ensures
            final(self).outbox() == old(self).outbox(),
            final(self).machine_id() == old(self).machine_id(),
            final(self).spec_panic_happened() == old(self).spec_panic_happened(),
            final(self).allocators().len() == old(self).allocators().len(),
            forall|i: int|
                0 <= i < old(self).allocators().len() && i != type_id@ ==> final(self).allocators()[i] == old(self).allocators()[i],
            !old(self).knows_class(type_id) ==> final(self).allocators() == old(self).allocators(),
            old(self).knows_class(type_id) ==> {
                let before = old(self).allocators()[type_id@ as int]->0;
                let after = final(self).allocators()[type_id@ as int];
                after is Some && after->0.next_id() == before.next_id() && after->0.free_ids()
                    == before.free_ids().push((instance_id, next_version(version)))
            },
    {
        let index = type_id.as_usize();
        if index >= self.allocators.len() {
            return ;
        }
        let mut slot: Option<IdAllocator> = None;
        core::mem::swap(&mut slot, &mut self.allocators[index]);
        match slot {
            None => {
                assert(self.allocators() =~= old(self).allocators());
            },
            Some(mut allocator) => {
                allocator.free(instance_id, version);
                self.allocators[index] = Some(allocator);
            },
        }
    }

    /// Takes out the messages that were sent and not yet routed, oldest first.
    pub fn take_outbox(&mut self) -> (sent: Vec<Envelope>)
        ensures
            sent@ == old(self).outbox(),
            final(self).outbox() == Seq::<Envelope>::empty(),
            final(self).allocators() == old(self).allocators(),
            final(self).machine_id() == old(self).machine_id(),
            final(self).spec_panic_happened() == old(self).spec_panic_happened(),
    {
        let mut sent: Vec<Envelope> = Vec::new();
        core::mem::swap(&mut sent, &mut self.outbox);
        sent
    }
}

} // verus!
