use crate::class::instance_store::Instance;
use crate::id::RawID;
use crate::world::World;
use vstd::prelude::*;

verus! {

/// What an actor instance chooses for itself at the end of a handler.
#[derive(Copy, Clone, PartialEq, Eq, Structural, Debug)]
pub enum Fate {
    /// The instance goes on living.
    Live,
    /// The instance dies and its slot is freed.
    Die,
}

/// Everything that can be sent between actors: a value with a fixed layout in bytes.
pub trait Message {
    /// Lays the message out in the bytes that stand for it in an inbox and on the wire.
    fn encode(&self) -> Vec<u8>;
}

impl Message for Vec<u8> {
    /// Bytes stand for themselves.
    fn encode(&self) -> (bytes: Vec<u8>)
        ensures
            bytes@ == self@,
    {
        self.clone()
    }
}

/// Says that a handler or a spawner ended in a panic.
#[derive(Copy, Clone, PartialEq, Eq, Structural, Debug)]
pub struct Panicked;

/// The code that an actor class runs when one of its instances gets a
/// message of one type. It may change the state of the instance, send
/// messages and ask for ids through the world, and it decides whether the
/// instance lives on.
pub trait Handler {
    fn handle(
        &self,
        id: RawID,
        state: &mut Vec<u8>,
        packet: &Packet<Vec<u8>>,
        world: &mut World,
    ) -> Result<Fate, Panicked>;
}

/// The code that an actor class runs to make a new instance from a message.
pub trait Spawner {
    fn spawn(&self, packet: &Packet<Vec<u8>>, world: &mut World) -> Result<Instance, Panicked>;
}

/// A message with its recipient.
pub struct Packet<M: Message> {
    /// The recipient.
    pub recipient_id: RawID,
    /// The message.
    pub message: M,
}

/// Runs a handler once on a state and a world that are handed over. They
/// come back as the handler left them, with its answer.
pub fn run_handler<H: Handler>(
    handler: &H,
    id: RawID,
    state: Vec<u8>,
    packet: &Packet<Vec<u8>>,
    world: World,
) -> (r: (Result<Fate, Panicked>, Vec<u8>, World))
    ensures
        exists|st: &mut Vec<u8>, w: &mut World| #[trigger]
            call_ensures(<H as Handler>::handle, (handler, id, st, packet, w), r.0) && (*st)@
                == state@ && (*final(st))@ == r.1@ && *w == world && *final(w) == r.2,
{
    let mut held = state;
    let mut lent = world;
    let answer = handler.handle(id, &mut held, packet, &mut lent);
    let ghost left = held@;
    let ghost after = lent;
    assert(exists|st: &mut Vec<u8>, w: &mut World| #[trigger]
        call_ensures(<H as Handler>::handle, (handler, id, st, packet, w), answer) && (*st)@
            == state@ && (*final(st))@ == left && *w == world && *final(w) == after);
    let r = (answer, held, lent);
    assert(r.0 == answer && r.1@ == left && r.2 == after);
    r
}

/// Runs a spawner once on a world that is handed over. The world comes
/// back as the spawner left it, with what the spawner made.
pub fn run_spawner<S: Spawner>(spawner: &S, packet: &Packet<Vec<u8>>, world: World) -> (r: (
    Result<Instance, Panicked>,
    World,
))
    ensures
        exists|w: &mut World| #[trigger]
            call_ensures(<S as Spawner>::spawn, (spawner, packet, w), r.0) && *w == world && *final(w) == r.1,
{
    let mut lent = world;
    let made = spawner.spawn(packet, &mut lent);
    let ghost after = lent;
    assert(exists|w: &mut World| #[trigger]
        call_ensures(<S as Spawner>::spawn, (spawner, packet, w), made) && *w == world && *final(w)
            == after);
    let r = (made, lent);
    assert(r.0 == made && r.1 == after);
    r
}

/// Whether a run of a handler for the instance with an id, on the state
/// `before` and the world `w0`, can have given the answer `out` and left the
/// state `after` and the world `w1`.
pub open spec fn handled<H: Handler>(
    handler: &H,
    id: RawID,
    before: Seq<u8>,
    packet: &Packet<Vec<u8>>,
    w0: World,
    out: Result<Fate, Panicked>,
    after: Seq<u8>,
    w1: World,
) -> bool {
    exists|s0: Vec<u8>, s1: Vec<u8>| #[trigger]
        call_ensures(run_handler::<H>, (handler, id, s0, packet, w0), (out, s1, w1)) && s0@
            == before && s1@ == after
}

/// Whether a run of a spawner on the world `w0` can have given `out` and
/// left the world `w1`.
pub open spec fn spawned<S: Spawner>(
    spawner: &S,
    packet: &Packet<Vec<u8>>,
    w0: World,
    out: Result<Instance, Panicked>,
    w1: World,
) -> bool {
    call_ensures(run_spawner::<S>, (spawner, packet, w0), (out, w1))
}

/// A run of a handler is a call of its `handle`: on the state and the world
/// before, with the answer and the state and the world after as its outcome.
pub proof fn lemma_handled_is_a_call<H: Handler>(
    handler: &H,
    id: RawID,
    before: Seq<u8>,
    packet: &Packet<Vec<u8>>,
    w0: World,
    out: Result<Fate, Panicked>,
    after: Seq<u8>,
    w1: World,
)
    requires
        handled(handler, id, before, packet, w0, out, after, w1),
    ensures
        exists|st: &mut Vec<u8>, w: &mut World| #[trigger]
            call_ensures(<H as Handler>::handle, (handler, id, st, packet, w), out) && (*st)@
                == before && (*final(st))@ == after && *w == w0 && *final(w) == w1,
{
}

/// A run of a spawner is a call of its `spawn`: on the world before, with
/// what it made and the world after as its outcome.
pub proof fn lemma_spawned_is_a_call<S: Spawner>(
    spawner: &S,
    packet: &Packet<Vec<u8>>,
    w0: World,
    out: Result<Instance, Panicked>,
    w1: World,
)
    requires
        spawned(spawner, packet, w0, out, w1),
    ensures
        exists|w: &mut World| #[trigger]
            call_ensures(<S as Spawner>::spawn, (spawner, packet, w), out) && *w == w0 && *final(w) == w1,
{
}

} // verus!
