use kay::actor_system::{short_name, ProcessReport, SystemFailure};
use kay::class::instance_store::AddError;
use kay::class::Dispatched;
use kay::wire::{read_raw_id, write_raw_id};
use kay::{
    ActorSystem, Fate, Handler, Instance, MachineID, Networking, Packet, Panicked, RawID,
    ShortTypeId, Spawner, Tuning, World,
};
use std::cell::Cell;
use std::rc::Rc;

/// The handlers of the test actors. A state is a list of bytes; a counter keeps its count in the first.
enum Behave {
    /// Adds the first byte of the message to the count.
    Inc,
    /// Appends the first byte of the message to the state.
    Append(Rc<Cell<usize>>),
    /// Dies.
    Die,
    /// Does nothing.
    Ping,
    /// Counts the call.
    Count(Rc<Cell<usize>>),
    /// Panics.
    Explode,
    /// Sends the message on to the recipient whose id stands in the message.
    Forward(ShortTypeId),
}

impl Handler for Behave {
    fn handle(
        &self,
        _id: RawID,
        state: &mut Vec<u8>,
        packet: &Packet<Vec<u8>>,
        world: &mut World,
    ) -> Result<Fate, Panicked> {
        match self {
            Behave::Inc => {
                state[0] += packet.message[0];
                Ok(Fate::Live)
            }
            Behave::Append(calls) => {
                calls.set(calls.get() + 1);
                state.push(packet.message[0]);
                Ok(Fate::Live)
            }
            Behave::Die => Ok(Fate::Die),
            Behave::Ping => Ok(Fate::Live),
            Behave::Count(calls) => {
                calls.set(calls.get() + 1);
                Ok(Fate::Live)
            }
            Behave::Explode => Err(Panicked),
            Behave::Forward(message_type) => {
                let to = read_raw_id(&packet.message, 0).unwrap();
                world.send_bytes(to, *message_type, vec![1]);
                Ok(Fate::Live)
            }
        }
    }
}

/// Makes an instance from a message that holds the id and then the first state.
struct Spawn;

impl Spawner for Spawn {
    fn spawn(&self, packet: &Packet<Vec<u8>>, _world: &mut World) -> Result<Instance, Panicked> {
        let id = read_raw_id(&packet.message, 0).ok_or(Panicked)?;
        Ok(Instance { id, state: packet.message[8..].to_vec() })
    }
}

fn single(machine_id: u8, n_machines: usize) -> ActorSystem<Behave, Spawn> {
    let network = (0..n_machines).map(|i| format!("localhost:{}", 9000 + i)).collect();
    ActorSystem::new(Networking::new(machine_id, network, 1024, 2, 3), Tuning::default())
}

fn spawn_message(id: RawID, state: &[u8]) -> Vec<u8> {
    let mut message = Vec::new();
    write_raw_id(&mut message, id);
    message.extend_from_slice(state);
    message
}

fn spawn(system: &mut ActorSystem<Behave, Spawn>, class: ShortTypeId, state: &[u8]) -> RawID {
    let spawn_type = system.register_trait_message("Spawn");
    let id = system.allocate_instance_id(class).unwrap();
    let swarm = system.local_first(class).local_broadcast();
    system.send(swarm, spawn_type, spawn_message(id, state));
    id
}

fn state_of(system: &ActorSystem<Behave, Spawn>, id: RawID) -> Option<Vec<u8>> {
    let class = system.class(id.type_id)?;
    class.instance_store.get(id).map(|instance| instance.state.clone())
}

fn no_failure(report: &ProcessReport) -> bool {
    report.failure.is_none()
}

#[test]
fn counter_increment_single_peer() {
    let mut system = single(0, 1);
    let counter = system.register("Counter", 4);
    system.add_spawner("Counter", "Spawn", Spawn, false);
    system.add_handler("Counter", "Inc", Behave::Inc, false);
    let inc = system.register_trait_message("Inc");
    let c0 = spawn(&mut system, counter, &[0]);
    assert_eq!(c0.to_string(), "1_0.0@0");
    for _ in 0..5 {
        system.send(c0, inc, vec![1]);
    }
    let report = system.process_all_messages();
    assert!(no_failure(&report));
    assert!(report.not_found.is_empty());
    assert_eq!(state_of(&system, c0), Some(vec![5]));
    assert_eq!(system.message_count(inc), 5);
    assert_eq!(system.get_instance_counts(), vec![("Counter".to_string(), 1)]);
    assert_eq!(
        system.get_message_statistics(),
        vec![("Spawn".to_string(), 1), ("Inc".to_string(), 5)]
    );
    assert!(!system.panic_happened());
}

#[test]
fn broadcast_with_growth_during_the_broadcast() {
    let mut system = single(0, 1);
    let counter = system.register("Counter", 1);
    let calls = Rc::new(Cell::new(0));
    system.add_spawner("Counter", "Spawn", Spawn, false);
    system.add_handler("Counter", "AppendThen", Behave::Append(calls.clone()), false);
    let append = system.register_trait_message("AppendThen");
    let ids: Vec<RawID> = (0..3).map(|_| spawn(&mut system, counter, &[])).collect();
    let swarm = system.local_first(counter).local_broadcast();
    system.send(swarm, append, vec![1]);
    let report = system.process_all_messages();
    assert!(no_failure(&report));
    for id in &ids {
        assert_eq!(state_of(&system, *id), Some(vec![1]));
    }
    assert_eq!(calls.get(), 3);
    assert_eq!(system.message_count(append), 1);
    assert_eq!(system.get_instance_counts(), vec![("Counter".to_string(), 3)]);
}

#[test]
fn broadcast_reaches_each_instance_once_when_instances_change_bins() {
    let mut system = single(0, 1);
    let counter = system.register("Counter", 1);
    let calls = Rc::new(Cell::new(0));
    system.add_spawner("Counter", "Spawn", Spawn, false);
    system.add_handler("Counter", "AppendThen", Behave::Append(calls.clone()), false);
    let append = system.register_trait_message("AppendThen");
    // sizes 1, 1, 1 lie in bin 0, sizes 2, 2 in bin 1, size 4 in bin 2
    let states: [&[u8]; 6] = [&[7], &[8], &[9], &[1, 1], &[2, 2], &[3, 3, 3, 3]];
    let ids: Vec<RawID> = states.iter().map(|s| spawn(&mut system, counter, s)).collect();
    assert!(no_failure(&system.process_all_messages()));
    let swarm = system.local_first(counter).local_broadcast();
    system.send(swarm, append, vec![5]);
    assert!(no_failure(&system.process_all_messages()));
    assert_eq!(calls.get(), 6);
    for (id, before) in ids.iter().zip(states.iter()) {
        let mut expected = before.to_vec();
        expected.push(5);
        assert_eq!(state_of(&system, *id), Some(expected));
    }
    assert_eq!(system.get_instance_counts(), vec![("Counter".to_string(), 6)]);
}

#[test]
fn dead_recipient() {
    let mut system = single(0, 1);
    let a = system.register("A", 1);
    system.add_spawner("A", "Spawn", Spawn, false);
    system.add_handler("A", "Die", Behave::Die, false);
    system.add_handler("A", "Ping", Behave::Ping, false);
    let die = system.register_trait_message("Die");
    let ping = system.register_trait_message("Ping");
    let a0 = spawn(&mut system, a, &[]);
    assert_eq!((a0.instance_id, a0.version), (0, 0));
    system.send(a0, die, vec![]);
    assert!(no_failure(&system.process_all_messages()));
    assert_eq!(state_of(&system, a0), None);
    system.send(a0, ping, vec![]);
    let report = system.process_all_messages();
    assert!(no_failure(&report));
    assert!(!system.panic_happened());
    assert_eq!(report.not_found, vec![a0]);
    let next = system.allocate_instance_id(a).unwrap();
    assert_eq!((next.instance_id, next.version), (0, 1));
    assert_eq!(next.to_string(), "1_0.1@0");
    assert_eq!(system.get_instance_counts(), vec![("A".to_string(), 0)]);
}

#[test]
fn trait_fan_out() {
    let mut system = single(0, 1);
    let console = system.register("ConsoleLogger", 1);
    let file = system.register("FileLogger", 1);
    let logger = system.register_trait("Logger");
    system.register_implementor("ConsoleLogger", "Logger");
    system.register_implementor("FileLogger", "Logger");
    let console_calls = Rc::new(Cell::new(0));
    let file_calls = Rc::new(Cell::new(0));
    system.add_spawner("ConsoleLogger", "Spawn", Spawn, false);
    system.add_spawner("FileLogger", "Spawn", Spawn, false);
    system.add_handler("ConsoleLogger", "Log", Behave::Count(console_calls.clone()), false);
    system.add_handler("FileLogger", "Log", Behave::Count(file_calls.clone()), false);
    let log = system.register_trait_message("Log");
    spawn(&mut system, console, &[]);
    spawn(&mut system, file, &[]);
    assert!(no_failure(&system.process_all_messages()));
    let all_loggers = system.local_first(logger).local_broadcast();
    system.send(all_loggers, log, b"hi".to_vec());
    assert_eq!(
        system.get_queue_lengths(),
        vec![("ConsoleLogger".to_string(), 1), ("FileLogger".to_string(), 1)]
    );
    assert!(no_failure(&system.process_all_messages()));
    assert_eq!((console_calls.get(), file_calls.get()), (1, 1));
    assert_eq!(
        system.get_queue_lengths(),
        vec![("ConsoleLogger".to_string(), 0), ("FileLogger".to_string(), 0)]
    );
}

fn exchange(from: &mut ActorSystem<Behave, Spawn>, to: &mut ActorSystem<Behave, Spawn>) -> bool {
    let sender = from.networking_machine_id().0 as usize;
    let receiver = to.networking_machine_id().0 as usize;
    let mut wait = false;
    for batch in from.networking_take_pending(receiver) {
        assert!(to.networking_may_receive(sender, &batch));
        wait = to.networking_receive(sender, &batch) || wait;
    }
    wait
}

fn peer(machine_id: u8, calls: &Rc<Cell<usize>>) -> (ActorSystem<Behave, Spawn>, ShortTypeId) {
    let mut system = single(machine_id, 2);
    let counter = system.register("Counter", 1);
    system.add_spawner("Counter", "Spawn", Spawn, false);
    system.add_handler("Counter", "Hello", Behave::Count(calls.clone()), false);
    system.networking_connected(1 - machine_id as usize);
    spawn(&mut system, counter, &[]);
    assert!(no_failure(&system.process_all_messages()));
    (system, counter)
}

#[test]
fn two_peer_turn_sync() {
    let calls0 = Rc::new(Cell::new(0));
    let calls1 = Rc::new(Cell::new(0));
    let (mut m0, counter) = peer(0, &calls0);
    let (mut m1, _) = peer(1, &calls1);
    let hello = m0.register_trait_message("Hello");
    assert_eq!(hello, m1.register_trait_message("Hello"));
    let everyone = m0.local_first(counter).global_broadcast();
    m0.send(everyone, hello, vec![]);

    assert!(!exchange(&mut m0, &mut m1));
    assert!(!exchange(&mut m1, &mut m0));
    assert!(no_failure(&m0.process_all_messages()));
    assert!(no_failure(&m1.process_all_messages()));
    assert_eq!(m0.networking_finish_turn(), None);
    assert_eq!(m1.networking_finish_turn(), None);
    assert!(!exchange(&mut m0, &mut m1));
    assert!(!exchange(&mut m1, &mut m0));

    assert_eq!((calls0.get(), calls1.get()), (1, 1));
    assert_eq!((m0.networking_n_turns(), m1.networking_n_turns()), (1, 1));
    assert_eq!(
        m0.networking_debug_all_n_turns(),
        vec![(MachineID(0), 1), (MachineID(1), 1)]
    );
    assert_eq!(
        m1.networking_debug_all_n_turns(),
        vec![(MachineID(0), 1), (MachineID(1), 1)]
    );
}

#[test]
fn backpressure() {
    let calls = Rc::new(Cell::new(0));
    let (mut m0, _) = peer(0, &calls);
    let (mut m1, _) = peer(1, &calls);
    // the other machine ends five turns; it sees this machine three turns too far behind at the last
    let mut stalled = Vec::new();
    for turn in 1..=5 {
        stalled.push(m1.networking_finish_turn());
        assert_eq!(m1.networking_n_turns(), turn);
    }
    assert_eq!(stalled, vec![None, None, None, Some(3), Some(6)]);
    assert!(!exchange(&mut m1, &mut m0));
    assert_eq!(
        m0.networking_debug_all_n_turns(),
        vec![(MachineID(0), 0), (MachineID(1), 5)]
    );
    let mut skips = Vec::new();
    for _ in 0..10 {
        skips.push(m0.networking_finish_turn());
    }
    assert_eq!(m0.networking_n_turns(), 10);
    assert_eq!(
        skips,
        vec![None, None, None, None, None, None, None, None, Some(3), Some(6)]
    );
    assert_eq!(m0.networking_finish_turn(), Some(9));
}

#[test]
fn inbound_backpressure_after_ten_turn_ends() {
    let calls = Rc::new(Cell::new(0));
    let (mut m0, _) = peer(0, &calls);
    let (mut m1, _) = peer(1, &calls);
    for _ in 0..9 {
        m1.networking_finish_turn();
    }
    assert!(!exchange(&mut m1, &mut m0));
    m1.networking_finish_turn();
    assert!(exchange(&mut m1, &mut m0));
    // an own turn end starts the count anew
    m0.networking_finish_turn();
    m1.networking_finish_turn();
    assert!(!exchange(&mut m1, &mut m0));
}

#[test]
fn panic_quarantine() {
    let mut system = single(0, 1);
    let a = system.register("A", 1);
    let normal = Rc::new(Cell::new(0));
    let critical = Rc::new(Cell::new(0));
    system.add_spawner("A", "Spawn", Spawn, false);
    system.add_handler("A", "Explode", Behave::Explode, false);
    system.add_handler("A", "Normal", Behave::Count(normal.clone()), false);
    system.add_handler("A", "Critical", Behave::Count(critical.clone()), true);
    let explode = system.register_trait_message("Explode");
    let normal_type = system.register_trait_message("Normal");
    let critical_type = system.register_trait_message("Critical");
    let a0 = spawn(&mut system, a, &[]);
    assert!(no_failure(&system.process_all_messages()));

    system.send(a0, explode, vec![]);
    system.send(a0, normal_type, vec![]);
    let report = system.process_all_messages();
    assert!(matches!(
        report.failure,
        Some(SystemFailure::Dispatch { class: 1, .. })
    ));
    assert!(system.panic_happened());
    // the message that failed is gone and was not counted, the one behind it still waits
    assert_eq!(system.message_count(explode), 0);
    assert_eq!(system.get_queue_lengths(), vec![("A".to_string(), 1)]);

    system.send(a0, critical_type, vec![]);
    assert!(no_failure(&system.process_all_messages()));
    assert_eq!((normal.get(), critical.get()), (0, 1));
    assert_eq!(system.message_count(normal_type), 1);
    assert!(system.panic_happened());
}

#[test]
fn message_without_handler_fails_the_pass() {
    let mut system = single(0, 1);
    let a = system.register("A", 1);
    let nothing = system.register_trait_message("Nothing");
    let to_all = system.local_first(a).local_broadcast();
    system.send(to_all, nothing, vec![]);
    let report = system.process_all_messages();
    match report.failure {
        Some(SystemFailure::Dispatch { class, failure }) => {
            assert_eq!(class, 1);
            assert_eq!(failure.message_type, nothing);
        }
        _ => panic!("the pass should have failed"),
    }
    assert!(system.panic_happened());
    // in the panicked state a message without a handler is passed over
    system.send(to_all, nothing, vec![]);
    assert!(no_failure(&system.process_all_messages()));
}

#[test]
fn send_to_unknown_recipient_is_refused() {
    let mut system = single(0, 1);
    let a = system.register("A", 1);
    let ping = system.register_trait_message("Ping");
    let dummy = system.register_dummy("Elsewhere");
    let nowhere = system.local_first(dummy);
    assert!(!system.may_send(nowhere, 0));
    assert!(system.may_send(system.local_first(a), 0));
    assert_eq!(
        system.get_actor_type_id_to_name_mapping(),
        vec![(1, "A".to_string()), (2, "Elsewhere".to_string())]
    );
}

#[test]
fn messages_sent_by_handlers_are_routed() {
    let mut system = single(0, 1);
    let a = system.register("A", 1);
    let b = system.register("B", 1);
    let calls = Rc::new(Cell::new(0));
    system.add_spawner("A", "Spawn", Spawn, false);
    system.add_spawner("B", "Spawn", Spawn, false);
    let poke = system.register_trait_message("Poke");
    system.add_handler("A", "Forward", Behave::Forward(poke), false);
    system.add_handler("B", "Poke", Behave::Count(calls.clone()), false);
    let forward = system.register_trait_message("Forward");
    let a0 = spawn(&mut system, a, &[]);
    let b0 = spawn(&mut system, b, &[]);
    let mut message = Vec::new();
    write_raw_id(&mut message, b0);
    system.send(a0, forward, message);
    assert!(no_failure(&system.process_all_messages()));
    assert_eq!(calls.get(), 1);
    assert_eq!(system.message_count(poke), 1);
}

#[test]
fn a_handler_that_sends_to_nowhere_fails_the_pass() {
    let mut system = single(0, 1);
    let a = system.register("A", 1);
    let dummy = system.register_dummy("Elsewhere");
    system.add_spawner("A", "Spawn", Spawn, false);
    let poke = system.register_trait_message("Poke");
    system.add_handler("A", "Forward", Behave::Forward(poke), false);
    let forward = system.register_trait_message("Forward");
    let a0 = spawn(&mut system, a, &[]);
    let mut message = Vec::new();
    write_raw_id(&mut message, system.local_first(dummy));
    system.send(a0, forward, message);
    let report = system.process_all_messages();
    assert!(matches!(report.failure, Some(SystemFailure::Unroutable { .. })));
    assert!(system.panic_happened());
}

#[test]
fn reset_message_statistics_sets_all_to_zero() {
    let mut system = single(0, 1);
    let a = system.register("A", 1);
    system.add_spawner("A", "Spawn", Spawn, false);
    spawn(&mut system, a, &[]);
    assert!(no_failure(&system.process_all_messages()));
    assert_eq!(system.get_message_statistics(), vec![("Spawn".to_string(), 1)]);
    system.reset_message_statistics();
    assert_eq!(system.get_message_statistics(), vec![]);
}

#[test]
fn short_names_of_types() {
    assert_eq!(short_name("counter::Counter"), "Counter");
    assert_eq!(short_name("a::b::List<c::d::Item>"), "Item");
    assert_eq!(short_name("Plain"), "Plain");
    assert_eq!(short_name("a:::b"), ":b");
    assert_eq!(short_name("x::Wrap<Wrap<u8>>"), "Wrap<Wrap<u8");
}

#[test]
fn a_spawned_instance_needs_an_allocated_id() {
    let mut system = single(0, 1);
    let a = system.register("A", 1);
    system.add_spawner("A", "Spawn", Spawn, false);
    let spawn_type = system.register_trait_message("Spawn");
    let swarm = system.local_first(a).local_broadcast();
    let never_allocated = RawID::new(a, 77, MachineID(0), 0);
    system.send(swarm, spawn_type, spawn_message(never_allocated, &[]));
    let report = system.process_all_messages();
    match report.failure {
        Some(SystemFailure::Dispatch { failure, .. }) => {
            assert!(matches!(
                failure.dispatched,
                Dispatched::SpawnRejected(AddError::UnknownId)
            ));
        }
        _ => panic!("the spawn should have failed"),
    }
    assert!(system.panic_happened());
    assert_eq!(system.get_instance_counts(), vec![("A".to_string(), 0)]);
}

#[test]
fn a_spawner_that_panics_fails_the_pass() {
    let mut system = single(0, 1);
    let a = system.register("A", 1);
    system.add_spawner("A", "Spawn", Spawn, false);
    let spawn_type = system.register_trait_message("Spawn");
    let swarm = system.local_first(a).local_broadcast();
    // the message is too short to hold an id, at which the spawner gives up
    system.send(swarm, spawn_type, vec![0; 8]);
    let report = system.process_all_messages();
    match report.failure {
        Some(SystemFailure::Dispatch { failure, .. }) => {
            assert!(matches!(failure.dispatched, Dispatched::SpawnPanicked));
        }
        _ => panic!("the spawn should have failed"),
    }
}

#[test]
fn an_instance_is_spawned_twice_only_after_it_died() {
    let mut system = single(0, 1);
    let a = system.register("A", 1);
    system.add_spawner("A", "Spawn", Spawn, false);
    let spawn_type = system.register_trait_message("Spawn");
    let swarm = system.local_first(a).local_broadcast();
    let a0 = spawn(&mut system, a, &[1]);
    system.send(swarm, spawn_type, spawn_message(a0, &[2]));
    let report = system.process_all_messages();
    match report.failure {
        Some(SystemFailure::Dispatch { failure, .. }) => {
            assert!(matches!(
                failure.dispatched,
                Dispatched::SpawnRejected(AddError::IdInUse)
            ));
        }
        _ => panic!("the second spawn should have failed"),
    }
    assert_eq!(state_of(&system, a0), Some(vec![1]));
}

#[test]
fn send_puts_one_frame_into_the_inbox_of_the_class() {
    let mut system = single(0, 1);
    let a = system.register("A", 1);
    let b = system.register("B", 1);
    let ping = system.register_trait_message("Ping");
    let to = RawID::new(a, 3, MachineID(0), 0);
    system.send(to, ping, vec![1, 2, 3]);
    assert_eq!(
        system.get_queue_lengths(),
        vec![("A".to_string(), 1), ("B".to_string(), 0)]
    );
    system.send(RawID::new(b, 0, MachineID(0), 0), ping, vec![]);
    system.send(to, ping, vec![]);
    assert_eq!(
        system.get_queue_lengths(),
        vec![("A".to_string(), 2), ("B".to_string(), 1)]
    );
    // a message to another machine does not wait here
    let mut paired = single(0, 2);
    let c = paired.register("C", 1);
    let ping = paired.register_trait_message("Ping");
    paired.send(RawID::new(c, 0, MachineID(1), 0), ping, vec![]);
    assert_eq!(paired.get_queue_lengths(), vec![("C".to_string(), 0)]);
}

#[test]
fn on_the_last_machine_a_message_to_a_local_instance_stays_local() {
    let network = (0..256).map(|i| format!("localhost:{}", 9000 + i)).collect();
    let mut system: ActorSystem<Behave, Spawn> =
        ActorSystem::new(Networking::new(0xFF, network, 1024, 2, 3), Tuning::default());
    system.networking_connected(0);
    let a = system.register("A", 1);
    let ping = system.register_trait_message("Ping");
    let to = RawID::new(a, 3, MachineID(0xFF), 0);
    system.send(to, ping, vec![1]);
    assert_eq!(system.get_queue_lengths(), vec![("A".to_string(), 1)]);
    assert_eq!(system.networking_take_pending(0), vec![Vec::<u8>::new()]);
    // a global broadcast waits here and goes out
    system.send(to.global_broadcast(), ping, vec![]);
    assert_eq!(system.get_queue_lengths(), vec![("A".to_string(), 2)]);
    assert_eq!(system.networking_take_pending(0).iter().map(|b| b.len()).sum::<usize>(), 14);
}

#[test]
fn the_id_of_a_dead_instance_is_handed_out_again_by_the_system() {
    let mut system = single(0, 1);
    let a = system.register("A", 1);
    system.add_spawner("A", "Spawn", Spawn, false);
    system.add_handler("A", "Die", Behave::Die, false);
    let die = system.register_trait_message("Die");
    let first = spawn(&mut system, a, &[]);
    let second = spawn(&mut system, a, &[]);
    system.send(second, die, vec![]);
    system.send(first, die, vec![]);
    assert!(no_failure(&system.process_all_messages()));
    let ids: Vec<(u32, u8)> = (0..3)
        .map(|_| system.allocate_instance_id(a).unwrap())
        .map(|id| (id.instance_id, id.version))
        .collect();
    assert_eq!(ids, vec![(0, 1), (1, 1), (2, 0)]);
}
