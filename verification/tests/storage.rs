use kay::class::instance_store::{AddError, Delivery};
use kay::class::Dispatched;
use kay::messaging::{run_handler, run_spawner};
use kay::wire::{build_frame, read_raw_id, write_raw_id};
use kay::{
    Class, Fate, Handler, Inbox, Instance, InstanceStore, MachineID, Packet, Panicked, RawID,
    ShortTypeId, SlotIndices, SlotMap, Spawner, Tuning, World,
};
use std::cell::RefCell;

fn type_id(n: u16) -> ShortTypeId {
    ShortTypeId::new(n).unwrap()
}

fn id(instance_id: u32, version: u8) -> RawID {
    RawID::new(type_id(1), instance_id, MachineID(0), version)
}

fn packet(recipient: RawID) -> Packet<Vec<u8>> {
    Packet { recipient_id: recipient, message: vec![] }
}

/// A handler whose behaviour is chosen by the first byte of the state of the
/// instance it runs on: 0 lives on, 1 dies, 2 grows by four bytes, 3 panics.
/// It notes the instance ids it ran for.
struct ByState {
    seen: RefCell<Vec<u32>>,
}

impl ByState {
    fn new() -> ByState {
        ByState { seen: RefCell::new(Vec::new()) }
    }
}

impl Handler for ByState {
    fn handle(
        &self,
        id: RawID,
        state: &mut Vec<u8>,
        _packet: &Packet<Vec<u8>>,
        _world: &mut World,
    ) -> Result<Fate, Panicked> {
        self.seen.borrow_mut().push(id.instance_id);
        match state[0] {
            1 => Ok(Fate::Die),
            2 => {
                state[0] = 0;
                state.extend_from_slice(&[9, 9, 9, 9]);
                Ok(Fate::Live)
            }
            3 => Err(Panicked),
            _ => Ok(Fate::Live),
        }
    }
}

fn store_with(states: &[&[u8]]) -> (InstanceStore, World, Vec<RawID>) {
    let mut store = InstanceStore::new(4, &Tuning::default());
    let mut world = World::new(MachineID(0), 64);
    world.register_class(type_id(1));
    let mut ids = Vec::new();
    for state in states {
        let id = store.allocate_id(id(0, 0), &mut world).unwrap();
        assert_eq!(store.add(Instance { id, state: state.to_vec() }), Ok(()));
        ids.push(id);
    }
    (store, world, ids)
}

#[test]
fn slot_indices_keep_bin_and_slot() {
    let indices = SlotIndices::new(3, 70_000);
    assert_eq!((indices.bin(), indices.slot()), (3, 70_000));
    assert!(indices.exec_is_valid());
    let truncated = SlotIndices::new(0x1_02, 5);
    assert_eq!(truncated.bin(), 2);
    let invalid = SlotIndices::invalid();
    assert_eq!((invalid.bin(), invalid.slot()), (0xFF, 0xFFFF_FFFF));
    assert!(!invalid.exec_is_valid());
}

#[test]
fn slot_map_checks_the_version() {
    let mut map = SlotMap::new(&Tuning::default());
    assert_eq!(map.len(), 0);
    map.reserve(2);
    assert_eq!(map.len(), 2);
    // an id that is known without instance has the mark of no instance for its entry
    assert_eq!(map.indices_of(0, 0), Some(SlotIndices::invalid()));
    assert_eq!(map.indices_of(0, 1), None);
    assert_eq!(map.indices_of(2, 0), None);
    assert_eq!(map.indices_of_no_version_check(0), Some(SlotIndices::invalid()));
    assert_eq!(map.indices_of_no_version_check(2), None);
    map.associate(1, SlotIndices::new(0, 7));
    assert_eq!(map.indices_of(1, 0), Some(SlotIndices::new(0, 7)));
    assert_eq!(map.indices_of(1, 1), None);
    map.free(1, 0);
    assert_eq!(map.indices_of(1, 0), None);
    assert_eq!(map.indices_of(1, 1), Some(SlotIndices::invalid()));
    assert_eq!(map.version_of(1), Some(1));
    map.associate(1, SlotIndices::new(2, 0));
    assert_eq!(map.indices_of(1, 1), Some(SlotIndices::new(2, 0)));
    map.free(1, 255);
    assert_eq!(map.version_of(1), Some(0));
}

#[test]
fn sizes_have_their_bins() {
    let store = InstanceStore::new(4, &Tuning::default());
    let bins: Vec<usize> = [0, 1, 4, 5, 8, 9, 16, 17, 1000]
        .iter()
        .map(|size| store.size_to_index(*size))
        .collect();
    assert_eq!(bins, vec![0, 0, 0, 1, 1, 2, 2, 3, 8]);
    assert_eq!(store.size_to_index(usize::MAX), (usize::BITS - 2) as usize);
    assert_eq!(InstanceStore::new(1, &Tuning::default()).size_to_index(usize::MAX), usize::BITS as usize);
}

#[test]
fn add_needs_a_free_allocated_id() {
    let (mut store, mut world, ids) = store_with(&[&[0]]);
    assert_eq!(store.n_instances(), 1);
    assert_eq!(
        store.add(Instance { id: id(5, 0), state: vec![] }),
        Err(AddError::UnknownId)
    );
    assert_eq!(
        store.add(Instance { id: ids[0], state: vec![] }),
        Err(AddError::IdInUse)
    );
    let next = store.allocate_id(id(0, 0), &mut world).unwrap();
    assert_eq!((next.instance_id, next.version), (1, 0));
    assert_eq!(
        store.add(Instance { id: id(1, 3), state: vec![] }),
        Err(AddError::StaleVersion)
    );
    assert_eq!(store.add(Instance { id: next, state: vec![1, 2] }), Ok(()));
    assert_eq!(store.n_instances(), 2);
    assert_eq!(store.get(next).map(|i| i.state.clone()), Some(vec![1, 2]));
    assert_eq!(store.known_ids(), 2);
}

#[test]
fn delivery_to_one_instance() {
    let (mut store, mut world, ids) = store_with(&[&[0], &[1], &[2], &[3]]);
    let handler = ByState::new();
    let outcomes: Vec<Delivery> = ids
        .iter()
        .map(|id| store.receive_instance(*id, &packet(*id), &mut world, &handler))
        .collect();
    assert_eq!(
        outcomes,
        vec![Delivery::Lived, Delivery::Died, Delivery::Lived, Delivery::Panicked]
    );
    assert_eq!(*handler.seen.borrow(), vec![0, 1, 2, 3]);
    assert_eq!(store.n_instances(), 3);
    assert_eq!(store.get(ids[0]).map(|i| i.state.clone()), Some(vec![0]));
    assert!(store.get(ids[1]).is_none());
    assert_eq!(store.get(ids[2]).map(|i| i.state.clone()), Some(vec![0, 9, 9, 9, 9]));
    assert_eq!(store.get(ids[3]).map(|i| i.state.clone()), Some(vec![3]));
    // the dead instance is found no more, under its old version or the next
    assert_eq!(
        store.receive_instance(ids[1], &packet(ids[1]), &mut world, &handler),
        Delivery::NotFound
    );
    assert_eq!(
        store.receive_instance(id(1, 1), &packet(id(1, 1)), &mut world, &handler),
        Delivery::NotFound
    );
    assert_eq!(*handler.seen.borrow(), vec![0, 1, 2, 3]);
    // its id is handed out again with the next version
    let again = store.allocate_id(id(0, 0), &mut world).unwrap();
    assert_eq!((again.instance_id, again.version), (1, 1));
}

#[test]
fn broadcast_runs_once_for_each_instance_of_the_start() {
    // in bin 0: one that lives, one that dies, one that grows into bin 1, one that lives;
    // in bin 1: one that dies and one that lives
    let (mut store, mut world, ids) = store_with(&[
        &[0],
        &[1],
        &[2],
        &[0, 0],
        &[1, 1, 1, 1, 1],
        &[0, 0, 0, 0, 0, 0],
    ]);
    let handler = ByState::new();
    let report = store.receive_broadcast(&packet(id(0, 0).local_broadcast()), &mut world, &handler);
    assert!(!report.panicked);
    let mut delivered: Vec<u32> = report.delivered.iter().map(|id| id.instance_id).collect();
    assert_eq!(delivered, *handler.seen.borrow());
    delivered.sort();
    assert_eq!(delivered, vec![0, 1, 2, 3, 4, 5]);
    assert_eq!(store.n_instances(), 4);
    assert!(store.get(ids[1]).is_none());
    assert!(store.get(ids[4]).is_none());
    assert_eq!(store.get(ids[2]).map(|i| i.state.clone()), Some(vec![0, 9, 9, 9, 9]));
    assert_eq!(store.get(ids[3]).map(|i| i.state.clone()), Some(vec![0, 0]));
    // a second broadcast finds those that are left, each once
    let second = ByState::new();
    let report = store.receive_broadcast(&packet(id(0, 0).local_broadcast()), &mut world, &second);
    let mut delivered: Vec<u32> = report.delivered.iter().map(|id| id.instance_id).collect();
    delivered.sort();
    assert_eq!(delivered, vec![0, 2, 3, 5]);
}

#[test]
fn broadcast_ends_at_a_panic() {
    let (mut store, mut world, ids) = store_with(&[&[0], &[3], &[0]]);
    let handler = ByState::new();
    let report = store.receive_broadcast(&packet(id(0, 0).local_broadcast()), &mut world, &handler);
    assert!(report.panicked);
    assert_eq!(report.delivered, vec![ids[0], ids[1]]);
    assert_eq!(store.n_instances(), 3);
}

#[test]
fn broadcast_in_an_empty_store() {
    let (mut store, mut world, _) = store_with(&[]);
    let handler = ByState::new();
    let report = store.receive_broadcast(&packet(id(0, 0).local_broadcast()), &mut world, &handler);
    assert!(!report.panicked);
    assert!(report.delivered.is_empty());
}

#[test]
fn frames_are_laid_out_low_byte_first() {
    let recipient = RawID::new(type_id(0x0102), 0x0A0B0C0D, MachineID(7), 9);
    let frame = build_frame(type_id(0x0304), recipient, &[0xEE, 0xFF]);
    assert_eq!(
        frame,
        vec![0x04, 0x03, 0x0D, 0x0C, 0x0B, 0x0A, 0x02, 0x01, 7, 9, 0xEE, 0xFF]
    );
    assert_eq!(read_raw_id(&frame, 2), Some(recipient));
    let mut bytes = vec![0xAA];
    write_raw_id(&mut bytes, recipient);
    assert_eq!(bytes, vec![0xAA, 0x0D, 0x0C, 0x0B, 0x0A, 0x02, 0x01, 7, 9]);
    assert_eq!(read_raw_id(&[0, 0, 0, 0, 0, 0, 1, 1], 0), None);
}

#[test]
fn put_raw_gives_what_put_gives() {
    let recipient = id(4, 2);
    let mut direct = Inbox::new(&Tuning::default());
    direct.put(Packet { recipient_id: recipient, message: vec![1u8, 2, 3] }, type_id(5));
    let mut relayed = Inbox::new(&Tuning::default());
    relayed.put_raw(&build_frame(type_id(5), recipient, &[1, 2, 3]));
    assert_eq!((direct.len(), relayed.len()), (1, 1));
    let a = direct.drain().next().unwrap();
    let b = relayed.drain().next().unwrap();
    assert_eq!(a.message_type, type_id(5));
    assert_eq!(a.packet.recipient_id, recipient);
    assert_eq!(a.packet.message, vec![1, 2, 3]);
    assert_eq!(b.message_type, a.message_type);
    assert_eq!(b.packet.recipient_id, a.packet.recipient_id);
    assert_eq!(b.packet.message, a.packet.message);
}

#[test]
fn a_drain_hands_out_what_waited_at_its_start() {
    let mut inbox = Inbox::new(&Tuning::default());
    inbox.put_bytes(id(0, 0), type_id(1), &[1]);
    inbox.put_bytes(id(1, 0), type_id(2), &[2]);
    let mut drain = inbox.drain();
    assert_eq!((inbox.len(), drain.len()), (0, 2));
    inbox.put_bytes(id(2, 0), type_id(3), &[3]);
    assert_eq!(drain.next().map(|p| p.packet.message), Some(vec![1]));
    assert_eq!(drain.len(), 1);
    assert_eq!(drain.next().map(|p| p.packet.message), Some(vec![2]));
    assert!(drain.next().is_none());
    assert!(drain.next().is_none());
    assert_eq!(inbox.len(), 1);
    // what a drain did not hand out goes back in front
    inbox.put_bytes(id(3, 0), type_id(4), &[4]);
    let mut second = inbox.drain();
    assert_eq!(second.next().map(|p| p.packet.message), Some(vec![3]));
    inbox.put_bytes(id(4, 0), type_id(5), &[5]);
    inbox.put_back(second);
    let order: Vec<Vec<u8>> = {
        let mut rest = inbox.drain();
        let mut order = Vec::new();
        while let Some(p) = rest.next() {
            order.push(p.packet.message);
        }
        order
    };
    assert_eq!(order, vec![vec![4], vec![5]]);
}

#[test]
fn an_id_that_the_store_cannot_take_is_not_handed_out() {
    let (mut store, mut world, ids) = store_with(&[&[0]]);
    // the id of a live instance waits for reuse by mistake
    world.free_instance_id(type_id(1), ids[0].instance_id, ids[0].version);
    assert_eq!(store.allocate_id(id(0, 0), &mut world), None);
    // the next id is fresh and can be taken
    let next = store.allocate_id(id(0, 0), &mut world).unwrap();
    assert_eq!((next.instance_id, next.version), (1, 0));
    assert_eq!(store.add(Instance { id: next, state: vec![] }), Ok(()));
}

#[test]
fn settle_does_what_the_answer_asks() {
    let (mut store, mut world, ids) = store_with(&[&[7], &[8], &[9]]);
    // the three lie in bin 0, in the order in which they were added
    assert_eq!(store.size_to_index(1), 0);
    assert_eq!(store.settle(0, 0, Ok(Fate::Live), &mut world), Delivery::Lived);
    assert_eq!(store.settle(0, 1, Err(Panicked), &mut world), Delivery::Panicked);
    assert_eq!(store.n_instances(), 3);
    assert_eq!(store.settle(0, 0, Ok(Fate::Die), &mut world), Delivery::Died);
    assert_eq!(store.n_instances(), 2);
    assert!(store.get(ids[0]).is_none());
    assert_eq!(store.get(ids[1]).map(|i| i.state.clone()), Some(vec![8]));
    assert_eq!(store.get(ids[2]).map(|i| i.state.clone()), Some(vec![9]));
    // the freed id is handed out next, under the next version
    let again = store.allocate_id(id(0, 0), &mut world).unwrap();
    assert_eq!((again.instance_id, again.version), (0, 1));
}

/// A spawner that is never run.
struct NoSpawner;

impl Spawner for NoSpawner {
    fn spawn(&self, _packet: &Packet<Vec<u8>>, _world: &mut World) -> Result<Instance, Panicked> {
        Err(Panicked)
    }
}

fn place(store: &mut InstanceStore, outcome: Result<Instance, Panicked>, world: &World) -> Dispatched {
    Class::<ByState, NoSpawner>::place_spawned(store, outcome, world)
}

#[test]
fn a_spawned_instance_is_placed_where_the_store_takes_it() {
    let (mut store, mut world, ids) = store_with(&[&[0]]);
    // an id that the world has handed out and the store does not know yet
    let fresh = world.allocate_instance_id(type_id(1)).unwrap();
    assert_eq!((fresh.instance_id, fresh.version), (1, 0));
    let spawned = place(&mut store, Ok(Instance { id: fresh, state: vec![1, 2] }), &world);
    assert!(matches!(spawned, Dispatched::Spawned(id) if id == fresh));
    assert_eq!(store.n_instances(), 2);
    assert_eq!(store.get(fresh).map(|i| i.state.clone()), Some(vec![1, 2]));
    // an id under which an instance stands
    let taken = place(&mut store, Ok(Instance { id: ids[0], state: vec![] }), &world);
    assert!(matches!(taken, Dispatched::SpawnRejected(AddError::IdInUse)));
    // an id that was never handed out
    let unknown = place(&mut store, Ok(Instance { id: id(9, 0), state: vec![] }), &world);
    assert!(matches!(unknown, Dispatched::SpawnRejected(AddError::UnknownId)));
    // an id under a version that is not the next one
    assert_eq!(store.settle(0, 0, Ok(Fate::Die), &mut world), Delivery::Died);
    let stale = place(&mut store, Ok(Instance { id: ids[0], state: vec![] }), &world);
    assert!(matches!(stale, Dispatched::SpawnRejected(AddError::StaleVersion)));
    // a spawner that panicked
    let panicked = place(&mut store, Err(Panicked), &world);
    assert!(matches!(panicked, Dispatched::SpawnPanicked));
    assert_eq!(store.n_instances(), 1);
}

#[test]
fn a_handler_is_run_on_what_it_is_handed() {
    let handler = ByState::new();
    let world = World::new(MachineID(0), 64);
    let (answer, state, _world) =
        run_handler(&handler, id(7, 0), vec![2], &packet(id(7, 0)), world);
    assert_eq!(answer, Ok(Fate::Live));
    assert_eq!(state, vec![0, 9, 9, 9, 9]);
    assert_eq!(*handler.seen.borrow(), vec![7]);
}

/// A handler that sends the state of its instance on to the recipient of the packet.
struct Forward;

impl Handler for Forward {
    fn handle(
        &self,
        _id: RawID,
        state: &mut Vec<u8>,
        packet: &Packet<Vec<u8>>,
        world: &mut World,
    ) -> Result<Fate, Panicked> {
        world.send(packet.recipient_id, type_id(9), state.clone());
        Ok(Fate::Live)
    }
}

#[test]
fn what_handlers_send_is_in_the_world_afterwards() {
    let (mut store, mut world, ids) = store_with(&[&[5], &[6]]);
    assert_eq!(
        store.receive_instance(ids[1], &packet(ids[1]), &mut world, &Forward),
        Delivery::Lived
    );
    let report = store.receive_broadcast(&packet(id(0, 0).local_broadcast()), &mut world, &Forward);
    assert_eq!(report.delivered, vec![ids[0], ids[1]]);
    // the world has come back with the machine and the allocators that it had
    assert_eq!(world.local_machine_id(), MachineID(0));
    assert_eq!(world.allocated_ids(type_id(1)), 2);
    let sent: Vec<Vec<u8>> = world.take_outbox().into_iter().map(|e| e.payload).collect();
    assert_eq!(sent, vec![vec![6], vec![5], vec![6]]);
}

/// A spawner that asks the world for an id and makes an instance from the message.
struct Maker;

impl Spawner for Maker {
    fn spawn(&self, packet: &Packet<Vec<u8>>, world: &mut World) -> Result<Instance, Panicked> {
        match world.allocate_instance_id(type_id(1)) {
            Some(id) => Ok(Instance { id, state: packet.message.clone() }),
            None => Err(Panicked),
        }
    }
}

#[test]
fn a_spawner_is_run_on_the_world_it_is_handed() {
    let (mut store, world, _) = store_with(&[&[0]]);
    let message = Packet { recipient_id: id(0, 0).local_broadcast(), message: vec![4, 2] };
    let (made, world) = run_spawner(&Maker, &message, world);
    let made = made.unwrap();
    assert_eq!((made.id.instance_id, made.id.version), (1, 0));
    assert_eq!(made.state, vec![4, 2]);
    assert_eq!(world.allocated_ids(type_id(1)), 2);
    let id = made.id;
    let placed = Class::<ByState, Maker>::place_spawned(&mut store, Ok(made), &world);
    assert!(matches!(placed, Dispatched::Spawned(at) if at == id));
    assert_eq!(store.get(id).map(|i| i.state.clone()), Some(vec![4, 2]));
    // a world without the class gives no id, and the spawner gives up
    let (made, _) = run_spawner(&Maker, &message, World::new(MachineID(0), 64));
    assert!(made.is_err());
}
