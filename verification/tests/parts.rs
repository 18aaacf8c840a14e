use kay::networking::Connection;
use kay::wire::build_frame;
use kay::{
    broadcast_instance_id, broadcast_machine_id, External, MachineID, Networking, RawID,
    ShortTypeId, StorageAware, Tuning, TypeRegistry, World,
};

fn type_id(n: u16) -> ShortTypeId {
    ShortTypeId::new(n).unwrap()
}

#[test]
fn broadcast_ids() {
    assert_eq!(broadcast_instance_id(), 0xFFFF_FFFF);
    assert_eq!(broadcast_machine_id(), MachineID(0xFF));
    let id = RawID::new(type_id(3), 17, MachineID(2), 5);
    assert!(!id.is_broadcast());
    assert!(!id.is_global_broadcast());
    let local = id.local_broadcast();
    assert_eq!(local, RawID::new(type_id(3), 0xFFFF_FFFF, MachineID(2), 5));
    assert!(local.is_broadcast());
    assert!(!local.is_global_broadcast());
    let global = id.global_broadcast();
    assert_eq!(global, RawID::new(type_id(3), 0xFFFF_FFFF, MachineID(0xFF), 5));
    assert!(global.is_broadcast());
    assert!(global.is_global_broadcast());
    assert_eq!(global.to_string(), "3_FFFFFFFF.5@FF");
    assert_eq!(id.format("Counter"), "Counter_11.5@2");
}

#[test]
fn string_form_round_trip() {
    for id in [
        RawID::new(type_id(1), 0, MachineID(0), 0),
        RawID::new(type_id(0xFFFF), 0xFFFF_FFFF, MachineID(0xFF), 0xFF),
        RawID::new(type_id(0x10), 0x100, MachineID(0x0F), 0xA0),
    ] {
        assert_eq!(RawID::from_str(&id.to_string()), Ok(id));
    }
}

#[test]
fn short_type_id_is_never_zero() {
    assert!(ShortTypeId::new(0).is_none());
    let id = type_id(258);
    assert_eq!((id.as_u16(), id.as_usize()), (258, 258));
}

#[test]
fn registry_hands_out_ids_in_order() {
    let mut registry = TypeRegistry::new(4);
    assert_eq!(registry.id_limit(), 4);
    assert_eq!(registry.get("a"), None);
    assert_eq!(registry.get_or_register("a"), Some(type_id(1)));
    assert_eq!(registry.get_or_register("b"), Some(type_id(2)));
    assert_eq!(registry.get_or_register("a"), Some(type_id(1)));
    assert_eq!(registry.get_or_register("c"), Some(type_id(3)));
    // ids stay below the limit
    assert_eq!(registry.get_or_register("d"), None);
    assert_eq!(registry.len(), 3);
    assert_eq!(registry.get("c"), Some(type_id(3)));
    assert_eq!(registry.get_name(type_id(2)).map(|s| s.as_str()), Some("b"));
    assert_eq!(registry.get_name(type_id(4)), None);
}

#[test]
fn tuning_defaults() {
    let tuning = Tuning::default();
    assert_eq!(tuning.instance_chunk_size, 4 * 1024 * 1024);
    assert_eq!(tuning.instance_entry_chunk_size, 1024 * 1024);
    assert_eq!(tuning.instance_versions_chunk_size, 512 * 1024);
    assert_eq!(tuning.instance_free_chunk_size, 8 * 1024);
    assert_eq!(tuning.inbox_queue_chunk_size, 1024 * 1024);
}

#[test]
fn typical_size_is_never_zero() {
    assert_eq!(<u64 as StorageAware>::typical_size(), 8);
    assert_eq!(<(u8, u8, u8) as StorageAware>::typical_size(), 3);
    assert_eq!(<() as StorageAware>::typical_size(), 1);
}

#[test]
fn external_hands_its_content_on() {
    let mut first = External::new(String::from("socket"));
    assert!(first.holds_content());
    assert_eq!(first.get(), "socket");
    let mut second = first.steal();
    assert!(!first.holds_content());
    assert_eq!(second.get(), "socket");
    second.set(String::from("other"));
    assert_eq!(*second.into_box(), "other");
    let boxed = External::from_box(Box::new(7u8));
    assert_eq!(*boxed.into_box(), 7);
}

#[test]
fn world_allocates_ids_by_class() {
    let mut world = World::new(MachineID(4), 8);
    assert_eq!(world.local_machine_id(), MachineID(4));
    assert!(!world.panic_happened());
    assert_eq!(world.allocate_instance_id(type_id(2)), None);
    world.register_class(type_id(2));
    assert_eq!(
        world.allocate_instance_id(type_id(2)),
        Some(RawID::new(type_id(2), 0, MachineID(4), 0))
    );
    assert_eq!(
        world.allocate_instance_id(type_id(2)),
        Some(RawID::new(type_id(2), 1, MachineID(4), 0))
    );
    assert_eq!(world.allocated_ids(type_id(2)), 2);
    world.free_instance_id(type_id(2), 0, 0);
    world.free_instance_id(type_id(2), 1, 255);
    assert_eq!(
        world.allocate_instance_id(type_id(2)),
        Some(RawID::new(type_id(2), 1, MachineID(4), 0))
    );
    assert_eq!(
        world.allocate_instance_id(type_id(2)),
        Some(RawID::new(type_id(2), 0, MachineID(4), 1))
    );
    assert_eq!(
        world.allocate_instance_id(type_id(2)),
        Some(RawID::new(type_id(2), 2, MachineID(4), 0))
    );
    // a class out of range has no ids
    world.register_class(type_id(8));
    assert_eq!(world.allocate_instance_id(type_id(8)), None);
    assert_eq!(world.local_first(type_id(3)), RawID::new(type_id(3), 0, MachineID(4), 0));
    assert_eq!(world.global_first(type_id(3)), RawID::new(type_id(3), 0, MachineID(0), 0));
    assert_eq!(
        world.local_broadcast(type_id(3)),
        RawID::new(type_id(3), 0xFFFF_FFFF, MachineID(4), 0)
    );
    assert_eq!(
        world.global_broadcast(type_id(3)),
        RawID::new(type_id(3), 0xFFFF_FFFF, MachineID(0xFF), 0)
    );
}

#[test]
fn world_keeps_what_was_sent_in_order() {
    let mut world = World::new(MachineID(0), 8);
    let to = RawID::new(type_id(1), 0, MachineID(0), 0);
    world.send_bytes(to, type_id(5), vec![1]);
    world.send(to, type_id(6), vec![2u8, 3]);
    let sent = world.take_outbox();
    assert_eq!(sent.len(), 2);
    assert_eq!((sent[0].message_type, sent[0].payload.clone()), (type_id(5), vec![1]));
    assert_eq!((sent[1].message_type, sent[1].payload.clone()), (type_id(6), vec![2, 3]));
    assert_eq!(sent[1].recipient, to);
    assert!(world.take_outbox().is_empty());
}

#[test]
fn frames_fill_a_batch_up_to_its_size() {
    let mut connection = Connection::new(20);
    let frame = [7u8; 5];
    // a frame of 5 bytes joins a batch that is shorter than 20 - 5 bytes
    connection.enqueue_in_batch(&frame);
    connection.enqueue_in_batch(&frame);
    connection.enqueue_in_batch(&frame);
    let entry = vec![5, 0, 0, 0, 7, 7, 7, 7, 7];
    let batches = connection.take_pending();
    assert_eq!(batches, vec![[entry.clone(), entry.clone()].concat(), entry.clone()]);
    // afterwards one empty batch is being filled
    assert_eq!(connection.take_pending(), vec![Vec::<u8>::new()]);
    connection.end_turn(0x0102_0304);
    assert_eq!(
        connection.take_pending(),
        vec![vec![6, 0, 0, 0, 0, 0, 4, 3, 2, 1]]
    );
}

fn network(machine_id: u8, n: usize) -> Networking {
    let addresses = (0..n).map(|i| format!("localhost:{}", 9000 + i)).collect();
    Networking::new(machine_id, addresses, 64, 2, 3)
}

#[test]
fn enqueue_goes_to_the_recipients_machine() {
    let mut networking = network(1, 4);
    networking.connected(0);
    networking.connected(2);
    let to_two = RawID::new(type_id(1), 5, MachineID(2), 0);
    networking.enqueue(type_id(9), to_two, &[1, 2]);
    let frame = build_frame(type_id(9), to_two, &[1, 2]);
    let mut entry = vec![12, 0, 0, 0];
    entry.extend_from_slice(&frame);
    assert_eq!(networking.take_pending(0), vec![Vec::<u8>::new()]);
    assert_eq!(networking.take_pending(2), vec![entry]);
    // there is no connection to machine 3, so nothing waits for it
    assert_eq!(networking.take_pending(3), Vec::<Vec<u8>>::new());

    let everyone = to_two.global_broadcast();
    networking.enqueue(type_id(9), everyone, &[]);
    let mut entry = vec![10, 0, 0, 0];
    entry.extend_from_slice(&build_frame(type_id(9), everyone, &[]));
    assert_eq!(networking.take_pending(0), vec![entry.clone()]);
    assert_eq!(networking.take_pending(2), vec![entry]);
}

#[test]
fn a_machine_alone_enqueues_nothing() {
    let mut networking = network(0, 1);
    networking.connected(0);
    networking.enqueue(type_id(9), RawID::new(type_id(1), 5, MachineID(0xFF), 0), &[1]);
    assert_eq!(networking.take_pending(0), vec![Vec::<u8>::new()]);
}

#[test]
fn machines_dial_those_with_smaller_ids() {
    let mut networking = network(2, 4);
    assert_eq!(networking.local_machine_id(), MachineID(2));
    assert_eq!(networking.n_machines(), 4);
    assert_eq!(networking.handshake(), vec![2]);
    assert!(networking.awaits_peer());
    assert_eq!(networking.peers_to_dial(), vec![0, 1]);
    networking.connected(0);
    networking.connected(3);
    assert!(!networking.awaits_peer());
    assert_eq!(networking.peers_to_dial(), vec![1]);
    networking.close(3);
    assert!(networking.awaits_peer());
    assert_eq!(
        networking.debug_all_n_turns(),
        vec![(MachineID(0), 0), (MachineID(1), -1), (MachineID(2), 0), (MachineID(3), -1)]
    );
}

#[test]
fn a_machine_far_behind_catches_up() {
    let mut behind = network(0, 2);
    let mut ahead = network(1, 2);
    behind.connected(1);
    ahead.connected(0);
    let mut classes: Vec<Option<kay::Class<Never, Never>>> = Vec::new();
    let implementors = Vec::new();
    for _ in 0..1001 {
        ahead.finish_turn();
        for batch in ahead.take_pending(0) {
            behind.receive(1, &batch, &mut classes, &implementors);
        }
        behind.finish_turn();
        behind.take_pending(1);
    }
    behind.catch_up();
    assert_eq!(behind.turns(), 1001);
    for _ in 0..1002 {
        ahead.finish_turn();
    }
    for batch in ahead.take_pending(0) {
        behind.receive(1, &batch, &mut classes, &implementors);
    }
    behind.catch_up();
    assert_eq!(behind.turns(), 2003);
}

/// A handler and spawner type for systems without handlers.
struct Never;

impl kay::Handler for Never {
    fn handle(
        &self,
        _id: RawID,
        _state: &mut Vec<u8>,
        _packet: &kay::Packet<Vec<u8>>,
        _world: &mut World,
    ) -> Result<kay::Fate, kay::Panicked> {
        Err(kay::Panicked)
    }
}

impl kay::Spawner for Never {
    fn spawn(
        &self,
        _packet: &kay::Packet<Vec<u8>>,
        _world: &mut World,
    ) -> Result<kay::Instance, kay::Panicked> {
        Err(kay::Panicked)
    }
}

#[test]
fn external_content_is_changed_in_place() {
    let mut external = External::new(vec![1u8]);
    external.get_mut().push(2);
    assert_eq!(*external.get(), vec![1, 2]);
}

#[test]
fn a_handshake_tells_a_machine_of_the_network() {
    let networking = network(1, 3);
    assert_eq!(networking.peer_of_handshake(&[2]), Some(2));
    assert_eq!(networking.peer_of_handshake(&[2, 9]), Some(2));
    assert_eq!(networking.peer_of_handshake(&[3]), None);
    assert_eq!(networking.peer_of_handshake(&[]), None);
}

#[test]
fn frames_that_carry_a_message() {
    let recipient = RawID::new(type_id(1), 0, MachineID(0), 0);
    assert!(kay::wire::carries_message(&build_frame(type_id(1), recipient, &[])));
    // a control frame, a frame that is too short, and a frame whose recipient has no type
    assert!(!kay::wire::carries_message(&[0, 0, 1, 0, 0, 0, 0, 0, 0, 0]));
    assert!(!kay::wire::carries_message(&[1, 0, 0, 0, 0, 0, 1, 0, 0]));
    assert!(!kay::wire::carries_message(&[1, 0, 0, 0, 0, 0, 0, 0, 0, 0]));
}

#[derive(Copy, Clone, Debug, PartialEq)]
struct CounterID(RawID);

impl kay::TypedID for CounterID {
    fn as_raw(&self) -> RawID {
        self.0
    }

    fn from_raw(raw: RawID) -> Self {
        CounterID(raw)
    }
}

#[derive(Copy, Clone, Debug, PartialEq)]
struct LoggerID(RawID);

impl kay::TypedID for LoggerID {
    fn as_raw(&self) -> RawID {
        self.0
    }

    fn from_raw(raw: RawID) -> Self {
        LoggerID(raw)
    }
}

struct Counter {
    id: CounterID,
}

impl kay::Actor for Counter {
    type ID = CounterID;

    fn id(&self) -> CounterID {
        self.id
    }

    fn set_id(&mut self, id: RawID) {
        self.id = CounterID(id);
    }
}

impl kay::TraitIDFrom<Counter> for LoggerID {}

#[test]
fn typed_ids_wrap_raw_ids() {
    let raw = RawID::new(type_id(2), 10, MachineID(1), 3);
    let id = <CounterID as kay::TypedID>::from_raw(raw);
    assert_eq!(kay::TypedID::as_raw_string(&id), "2_A.3@1");
    assert_eq!(<CounterID as kay::TypedID>::from_raw_str("2_A.3@1"), Ok(id));
    assert_eq!(
        <CounterID as kay::TypedID>::from_raw_str("2_A.3"),
        Err(kay::ParseRawIDError::Format)
    );
    let mut counter = Counter { id };
    kay::Actor::set_id(&mut counter, RawID::new(type_id(2), 11, MachineID(1), 0));
    let as_logger: LoggerID = kay::actor::id_as(&counter);
    assert_eq!(as_logger.0, RawID::new(type_id(2), 11, MachineID(1), 0));
}

#[test]
fn a_global_broadcast_names_all_machines_and_all_instances() {
    let all_machines_one_instance = RawID::new(type_id(3), 5, MachineID(0xFF), 0);
    assert!(!all_machines_one_instance.is_global_broadcast());
    assert!(!all_machines_one_instance.is_broadcast());
    let all_instances_here = RawID::new(type_id(3), 0xFFFF_FFFF, MachineID(2), 0);
    assert!(!all_instances_here.is_global_broadcast());
    assert!(RawID::new(type_id(3), 0xFFFF_FFFF, MachineID(0xFF), 0).is_global_broadcast());
}

#[test]
fn machine_ids_are_ordered_by_their_numbers() {
    assert!(MachineID(1) < MachineID(2));
    assert!(MachineID(0xFF) > MachineID(0));
    assert_eq!(MachineID(7).max(MachineID(3)), MachineID(7));
}

#[test]
fn a_message_to_one_instance_on_the_last_machine_goes_to_that_machine_alone() {
    let mut networking = network(0, 256);
    networking.connected(1);
    networking.connected(255);
    let to = RawID::new(type_id(1), 5, MachineID(0xFF), 0);
    networking.enqueue(type_id(9), to, &[]);
    let mut entry = vec![10, 0, 0, 0];
    entry.extend_from_slice(&build_frame(type_id(9), to, &[]));
    assert_eq!(networking.take_pending(1), vec![Vec::<u8>::new()]);
    assert_eq!(networking.take_pending(255), vec![entry]);
}

#[test]
fn the_world_fits_its_system() {
    let mut world = World::new(MachineID(1), 2);
    world.register_class(type_id(1));
    assert_eq!(world.allocate_instance_id(type_id(1)).map(|id| id.instance_id), Some(0));
    world.fit(MachineID(3), 4);
    assert_eq!(world.local_machine_id(), MachineID(3));
    assert_eq!(world.allocated_ids(type_id(1)), 1);
    world.register_class(type_id(3));
    assert_eq!(
        world.allocate_instance_id(type_id(3)),
        Some(RawID::new(type_id(3), 0, MachineID(3), 0))
    );
    world.fit(MachineID(3), 2);
    assert_eq!(world.allocate_instance_id(type_id(3)), None);
    // a class that is installed anew starts with its ids from the beginning
    world.install_class(type_id(1));
    assert_eq!(world.allocate_instance_id(type_id(1)).map(|id| id.instance_id), Some(0));
}
