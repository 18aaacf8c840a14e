use crate::class::Class;
use crate::id::{MachineID, RawID};
use crate::messaging::{Handler, Spawner};
use crate::type_registry::ShortTypeId;
use crate::wire::{
    build_frame, frame_bytes, frame_recipient, is_data_frame, le_u16, le_u32, read_raw_id,
    read_u32_at, u16_le_bytes, u32_le_bytes, write_u16_to, write_u32_to,
};
use vstd::slice::slice_subrange;
use vstd::prelude::*;

verus! {

// ---------------------------------------------------------------------------
// Addresses
// ---------------------------------------------------------------------------
/// The index of the first `://` that starts at or after `from`, or the
/// length of the text where there is none.
pub open spec fn first_mark(s: Seq<char>, from: int) -> int
    decreases s.len() - from,
{
    if from < 0 || from + 3 > s.len() {
        s.len() as int
    } else if s[from] == ':' && s[from + 1] == '/' && s[from + 2] == '/' {
        from
    } else {
        first_mark(s, from + 1)
    }
}

/// The text from `from` on without any `://`, taken out from the left.
pub open spec fn without_marks(s: Seq<char>, from: int) -> Seq<char>
    decreases s.len() - from,
{
    let j = first_mark(s, from);
    if from < 0 || from > s.len() {
        Seq::empty()
    } else if j < from || j + 3 > s.len() {
        s.subrange(from, s.len() as int)
    } else {
        s.subrange(from, j) + without_marks(s, j + 3)
    }
}

/// The websocket address of a peer. An address without scheme gets `ws://`.
/// Otherwise the text before the first `://` is the scheme and the rest,
/// without any further `://`, is kept: `ws` and `wss` addresses stay as they
/// are, `https` becomes `wss`, and anything else becomes `ws`.
pub open spec fn websocket_address_text(s: Seq<char>) -> Seq<char> {
    let i = first_mark(s, 0);
    let scheme = s.subrange(0, i);
    let rest = without_marks(s, i + 3);
    if i >= s.len() {
        seq!['w', 's', ':', '/', '/'] + s
    } else if scheme == seq!['h', 't', 't', 'p', 's'] {
        seq!['w', 's', 's', ':', '/', '/'] + rest
    } else if scheme == seq!['w', 's', 's'] || scheme == seq!['w', 's'] {
        s
    } else {
        seq!['w', 's', ':', '/', '/'] + rest
    }
}

proof fn lemma_first_mark_bounds(s: Seq<char>, from: int)
    requires
        0 <= from <= s.len(),
    ensures
        from <= first_mark(s, from) <= s.len(),
        first_mark(s, from) < s.len() ==> first_mark(s, from) + 3 <= s.len(),
    decreases s.len() - from,
{
    if from + 3 <= s.len() && !(s[from] == ':' && s[from + 1] == '/' && s[from + 2] == '/') {
        lemma_first_mark_bounds(s, from + 1);
    }
}

fn find_mark(v: &Vec<char>, from: usize) -> (r: usize)
    requires
        from <= v.len(),
    ensures
        r == first_mark(v@, from as int),
        from <= r <= v.len(),
        r < v.len() ==> r + 3 <= v.len(),
{
    proof {
        lemma_first_mark_bounds(v@, from as int);
    }
    let n = v.len();
    let mut i: usize = from;
    while n - i >= 3 && !(v[i] == ':' && v[i + 1] == '/' && v[i + 2] == '/')
        invariant
            n == v.len(),
            from <= i <= n,
            first_mark(v@, from as int) == first_mark(v@, i as int),
        decreases n - i,
    {
        i += 1;
    }
    if n - i >= 3 {
        i
    } else {
        n
    }
}

pub(crate) fn collect_chars(s: &str) -> (v: Vec<char>)
    ensures
        v@ == s@,
{
    let n = s.unicode_len();
    let mut v: Vec<char> = Vec::new();
    let mut i: usize = 0;
    while i < n
        invariant
            n == s@.len(),
            i <= n,
            v@ == s@.subrange(0, i as int),
        decreases n - i,
    {
        v.push(s.get_char(i));
        i += 1;
        assert(v@ =~= s@.subrange(0, i as int));
    }
    assert(v@ =~= s@);
    v
}

/// Appends the text from `from` on, without any `://`.
fn append_without_marks(out: &mut String, address: &str, v: &Vec<char>, from: usize)
    requires
        v@ == address@,
        from <= v.len(),
    ensures
        final(out)@ == old(out)@ + without_marks(v@, from as int),
{
    let n = v.len();
    let mut pos: usize = from;
    loop
        invariant_except_break
            n == v.len(),
            v@ == address@,
            pos <= n,
            out@ + without_marks(v@, pos as int) == old(out)@ + without_marks(v@, from as int),
        ensures
            out@ == old(out)@ + without_marks(v@, from as int),
        decreases n - pos,
    {
        let j = find_mark(v, pos);
        let ghost before = out@;
        out.append(address.substring_char(pos, j));
        if j >= n {
            assert(without_marks(v@, pos as int) == v@.subrange(pos as int, n as int));
            break ;
        }
        assert(before + (v@.subrange(pos as int, j as int) + without_marks(v@, j + 3)) =~= (before
            + v@.subrange(pos as int, j as int)) + without_marks(v@, j + 3));
        pos = j + 3;
    }
}

/// The websocket address under which a peer is dialled.
pub fn websocket_address(address: &str) -> (r: String)
    ensures
        r@ == websocket_address_text(address@),
{
    proof {
        reveal_strlit("ws://");
        reveal_strlit("wss://");
    }
    assert("ws://"@ =~= seq!['w', 's', ':', '/', '/']);
    assert("wss://"@ =~= seq!['w', 's', 's', ':', '/', '/']);
    let v = collect_chars(address);
    let n = v.len();
    let i = find_mark(&v, 0);
    let ghost scheme = v@.subrange(0, i as int);
    if i >= n {
        let mut out = String::from_str("ws://");
        out.append(address);
        return out;
    }
    let is_https = i == 5 && v[0] == 'h' && v[1] == 't' && v[2] == 't' && v[3] == 'p' && v[4]
        == 's';
    let is_wss = i == 3 && v[0] == 'w' && v[1] == 's' && v[2] == 's';
    let is_ws = i == 2 && v[0] == 'w' && v[1] == 's';
    proof {
        if is_https {
            assert(scheme =~= seq!['h', 't', 't', 'p', 's']);
        } else {
            if scheme == seq!['h', 't', 't', 'p', 's'] {
                assert(scheme.len() == 5);
                assert(scheme[0] == 'h' && scheme[1] == 't' && scheme[2] == 't' && scheme[3] == 'p'
                    && scheme[4] == 's');
            }
        }
        if is_wss {
            assert(scheme =~= seq!['w', 's', 's']);
        } else {
            if scheme == seq!['w', 's', 's'] {
                assert(scheme.len() == 3);
                assert(scheme[0] == 'w' && scheme[1] == 's' && scheme[2] == 's');
            }
        }
        if is_ws {
            assert(scheme =~= seq!['w', 's']);
        } else {
            if scheme == seq!['w', 's'] {
                assert(scheme.len() == 2);
                assert(scheme[0] == 'w' && scheme[1] == 's');
            }
        }
    }
    if is_https {
        let mut out = String::from_str("wss://");
        append_without_marks(&mut out, address, &v, i + 3);
        out
    } else if is_wss || is_ws {
        String::from_str(address)
    } else {
        let mut out = String::from_str("ws://");
        append_without_marks(&mut out, address, &v, i + 3);
        out
    }
}

// ---------------------------------------------------------------------------
// Outbound batches
// ---------------------------------------------------------------------------
/// The bytes of all batches in a row.
pub open spec fn concat(batches: Seq<Seq<u8>>) -> Seq<u8>
    decreases batches.len(),
{
    if batches.len() == 0 {
        Seq::empty()
    } else {
        concat(batches.drop_last()) + batches.last()
    }
}

/// A frame as it lies in a batch: its length in four bytes, then the frame.
pub open spec fn batch_entry(frame: Seq<u8>) -> Seq<u8> {
    u32_le_bytes(frame.len() as u32) + frame
}

/// The frame that tells a peer that a turn has ended: a zero in place of a
/// message type, then the number of turns that have ended by now.
pub open spec fn control_frame(n_turns: u32) -> Seq<u8> {
    u16_le_bytes(0) + u32_le_bytes(n_turns)
}

/// The batches after a frame was enqueued. The frame joins the last batch
/// where that batch is shorter than the batch size less the frame's length;
/// else it starts a new batch.
pub open spec fn enqueued(batches: Seq<Seq<u8>>, batch_message_bytes: int, frame: Seq<u8>) -> Seq<
    Seq<u8>,
> {
    if batches.last().len() < batch_message_bytes - frame.len() {
        batches.update(batches.len() - 1, batches.last() + batch_entry(frame))
    } else {
        batches.push(batch_entry(frame))
    }
}

/// Enqueueing a frame appends its batch entry to the bytes that go out.
pub proof fn lemma_enqueued_concat(batches: Seq<Seq<u8>>, batch_message_bytes: int, frame: Seq<u8>)
    requires
        batches.len() >= 1,
    ensures
        concat(enqueued(batches, batch_message_bytes, frame)) == concat(batches) + batch_entry(
            frame,
        ),
        enqueued(batches, batch_message_bytes, frame).len() >= 1,
{
    let e = enqueued(batches, batch_message_bytes, frame);
    if batches.last().len() < batch_message_bytes - frame.len() {
        assert(e.drop_last() =~= batches.drop_last());
        assert(concat(batches.drop_last()) + (batches.last() + batch_entry(frame)) =~= (concat(
            batches.drop_last(),
        ) + batches.last()) + batch_entry(frame));
    } else {
        assert(e.drop_last() =~= batches);
    }
}

/// What this machine keeps of its connection to one peer: the batches that
/// wait to be sent, and how far the peer is in its turns.
pub struct Connection {
    n_turns: usize,
    n_turns_since_own_turn: usize,
    out_batches: Vec<Vec<u8>>,
    batch_message_bytes: usize,
}

impl Connection {
    /// The number of the last turn that the peer is known to have ended.
    pub closed spec fn n_turns(&self) -> nat {
        self.n_turns as nat
    }

    /// The number of turn ends that came from the peer since this machine last ended a turn.
    pub closed spec fn n_turns_since_own_turn(&self) -> nat {
        self.n_turns_since_own_turn as nat
    }

    /// The batches that wait to be sent, oldest first. The last is the one
    /// that is being filled.
    pub closed spec fn batches(&self) -> Seq<Seq<u8>> {
        self.out_batches@.map_values(|b: Vec<u8>| b@)
    }

    /// The size above which a batch takes no further frame.
    pub closed spec fn batch_message_bytes(&self) -> nat {
        self.batch_message_bytes as nat
    }

    /// There is always a batch that is being filled.
    pub open spec fn wf(&self) -> bool {
        self.batches().len() >= 1
    }

    /// A connection to a peer from which nothing has come and to which nothing waits to go.
    pub fn new(batch_message_bytes: usize) -> (c: Connection)
        ensures
            c.wf(),
            c.n_turns() == 0,
            c.n_turns_since_own_turn() == 0,
            c.batches() == seq![Seq::<u8>::empty()],
            c.batch_message_bytes() == batch_message_bytes,
    {
        let mut out_batches: Vec<Vec<u8>> = Vec::new();
        out_batches.push(Vec::new());
        let c = Connection {
            n_turns: 0,
            n_turns_since_own_turn: 0,
            out_batches,
            batch_message_bytes,
        };
        assert(c.batches() =~= seq![Seq::<u8>::empty()]);
        c
    }

    /// The size above which a batch takes no further frame.
    pub fn batch_size(&self) -> (n: usize)
        ensures
            n == self.batch_message_bytes(),
    {
        self.batch_message_bytes
    }

    /// The number of the last turn that the peer is known to have ended.
    pub fn peer_turns(&self) -> (n: usize)
        ensures
            n == self.n_turns(),
    {
        self.n_turns
    }

    /// Enqueues a frame for the peer: its length and its bytes go to the end
    /// of the last batch, or to a new batch where the last has no room.
    pub fn enqueue_in_batch(&mut self, frame: &[u8])
        requires
            old(self).wf(),
            frame@.len() <= old(self).batch_message_bytes(),
            frame@.len() <= 0xFFFF_FFFF,
        ensures
            final(self).wf(),
            final(self).batches() == enqueued(
                old(self).batches(),
                old(self).batch_message_bytes() as int,
                frame@,
            ),
            final(self).n_turns() == old(self).n_turns(),
            final(self).n_turns_since_own_turn() == old(self).n_turns_since_own_turn(),
            final(self).batch_message_bytes() == old(self).batch_message_bytes(),
    {
        let message_size = frame.len();
        let last = self.out_batches.len() - 1;
        if self.out_batches[last].len() >= self.batch_message_bytes - message_size {
            self.out_batches.push(Vec::new());
            let batch = self.out_batches.len() - 1;
            write_u32_to(&mut self.out_batches[batch], message_size as u32);
            self.out_batches[batch].extend_from_slice(frame);
            assert(self.out_batches@[batch as int]@ =~= batch_entry(frame@));
            assert(self.batches() =~= old(self).batches().push(batch_entry(frame@)));
        } else {
            write_u32_to(&mut self.out_batches[last], message_size as u32);
            self.out_batches[last].extend_from_slice(frame);
            assert(self.out_batches@[last as int]@ =~= old(self).batches().last() + batch_entry(
                frame@,
            ));
            assert(self.batches() =~= old(self).batches().update(
                last as int,
                old(self).batches().last() + batch_entry(frame@),
            ));
        }
    }

    /// Tells the peer that this machine has ended a turn: enqueues the
    /// control frame with the number of turns that have ended by now, and
    /// counts the peer's turn ends from zero again.
    pub fn end_turn(&mut self, n_turns: u32)
        requires
            old(self).wf(),
            old(self).batch_message_bytes() >= 6,
        ensures
            final(self).wf(),
            final(self).batches() == enqueued(
                old(self).batches(),
                old(self).batch_message_bytes() as int,
                control_frame(n_turns),
            ),
            concat(final(self).batches()) == concat(old(self).batches()) + batch_entry(
                control_frame(n_turns),
            ),
            final(self).n_turns() == old(self).n_turns(),
            final(self).n_turns_since_own_turn() == 0,
            final(self).batch_message_bytes() == old(self).batch_message_bytes(),
    {
        let mut frame: Vec<u8> = Vec::new();
        write_u16_to(&mut frame, 0);
        write_u32_to(&mut frame, n_turns);
        assert(frame@ =~= control_frame(n_turns));
        proof {
            lemma_enqueued_concat(
                self.batches(),
                self.batch_message_bytes() as int,
                control_frame(n_turns),
            );
        }
        self.enqueue_in_batch(frame.as_slice());
        self.n_turns_since_own_turn = 0;
    }

    /// Takes out the batches that wait to be sent, oldest first, the one
    /// that was being filled with them, and starts an empty batch.
    pub fn take_pending(&mut self) -> (batches: Vec<Vec<u8>>)
        requires
            old(self).wf(),
        ensures
            final(self).wf(),
            batches@.map_values(|b: Vec<u8>| b@) == old(self).batches(),
            final(self).batches() == seq![Seq::<u8>::empty()],
            final(self).n_turns() == old(self).n_turns(),
            final(self).n_turns_since_own_turn() == old(self).n_turns_since_own_turn(),
            final(self).batch_message_bytes() == old(self).batch_message_bytes(),
    {
        let mut batches: Vec<Vec<u8>> = Vec::new();
        batches.push(Vec::new());
        core::mem::swap(&mut batches, &mut self.out_batches);
        assert(self.batches() =~= seq![Seq::<u8>::empty()]);
        batches
    }
}

// ---------------------------------------------------------------------------
// Turns
// ---------------------------------------------------------------------------
/// Whether a peer is further behind than is acceptable.
pub open spec fn lags(peer: Option<Connection>, own_turns: int, distance: int) -> bool {
    peer matches Some(c) && c.n_turns() + distance < own_turns
}

/// The number of turns to skip so that the peers can catch up: for the last
/// peer that is further behind than is acceptable, the number of turns by
/// which it is too far behind, times the turns to skip for each.
pub open spec fn skip_turns(
    peers: Seq<Option<Connection>>,
    own_turns: int,
    distance: int,
    per_turn_head: int,
) -> Option<int>
    decreases peers.len(),
{
    if peers.len() == 0 {
        None
    } else if lags(peers.last(), own_turns, distance) {
        Some((own_turns - distance - peers.last()->0.n_turns()) * per_turn_head)
    } else {
        skip_turns(peers.drop_last(), own_turns, distance, per_turn_head)
    }
}

/// A number of turns as it is shown among numbers that may be negative:
/// itself, or the largest such number where it is larger.
pub open spec fn shown_turns(n: nat) -> int {
    if n > isize::MAX {
        isize::MAX as int
    } else {
        n as int
    }
}

fn as_shown(n: usize) -> (r: isize)
    ensures
        r == shown_turns(n as nat),
{
    if n > isize::MAX as usize {
        isize::MAX
    } else {
        n as isize
    }
}

/// The networking configuration of an actor system, and what it knows of its peers.
pub struct Networking {
    machine_id: MachineID,
    batch_message_bytes: usize,
    n_turns: usize,
    acceptable_turn_distance: usize,
    skip_turns_per_turn_head: usize,
    network: Vec<String>,
    network_connections: Vec<Option<Connection>>,
}

impl Networking {
    /// The machine id of this actor system.
    pub closed spec fn machine_id(&self) -> MachineID {
        self.machine_id
    }

    /// The number of turns that this machine has ended.
    pub closed spec fn n_turns(&self) -> nat {
        self.n_turns as nat
    }

    pub closed spec fn batch_message_bytes(&self) -> nat {
        self.batch_message_bytes as nat
    }

    /// The number of turns that a peer may be behind before this machine is told to skip turns.
    pub closed spec fn acceptable_turn_distance(&self) -> nat {
        self.acceptable_turn_distance as nat
    }

    /// The number of turns to skip for each turn that a peer is too far behind.
    pub closed spec fn skip_turns_per_turn_head(&self) -> nat {
        self.skip_turns_per_turn_head as nat
    }

    /// The addresses of all machines, by machine id.
    pub closed spec fn network(&self) -> Seq<String> {
        self.network@
    }

    /// The connections to the peers, by machine id.
    pub closed spec fn connections(&self) -> Seq<Option<Connection>> {
        self.network_connections@
    }

    /// Each machine has an address and at most one connection; machine ids
    /// fit a byte; and each connection batches by this configuration.
    pub open spec fn wf(&self) -> bool {
        &&& self.connections().len() == self.network().len()
        &&& self.network().len() <= 256
        &&& self.machine_id().0 < self.network().len()
        &&& forall|i: int|
            0 <= i < self.connections().len() ==> (#[trigger] self.connections()[i] matches Some(
                c,
            ) ==> c.wf() && c.batch_message_bytes() == self.batch_message_bytes())
    }

    /// Whether there is a connection to the machine `i`.
    pub open spec fn is_connected(&self, i: int) -> bool {
        0 <= i < self.connections().len() && self.connections()[i] is Some
    }

    /// The networking of the machine `machine_id` among the machines at the
    /// given addresses, not yet connected to any.
    pub fn new(
        machine_id: u8,
        network: Vec<String>,
        batch_message_bytes: usize,
        acceptable_turn_distance: usize,
        skip_turns_per_turn_head: usize,
    ) -> (n: Networking)
        requires
            machine_id < network@.len(),
            network@.len() <= 256,
        ensures
            n.wf(),
            n.machine_id() == MachineID(machine_id),
            n.n_turns() == 0,
            n.batch_message_bytes() == batch_message_bytes,
            n.acceptable_turn_distance() == acceptable_turn_distance,
            n.skip_turns_per_turn_head() == skip_turns_per_turn_head,
            n.network() == network@,
            forall|i: int| 0 <= i < network@.len() ==> !n.is_connected(i),
    {
        let mut network_connections: Vec<Option<Connection>> = Vec::new();
        let mut i: usize = 0;
        while i < network.len()
            invariant
                i <= network@.len(),
                network_connections@.len() == i,
                forall|k: int| 0 <= k < i ==> network_connections@[k] is None,
            decreases network@.len() - i,
        {
            network_connections.push(None);
            i += 1;
        }
        Networking {
            machine_id: MachineID(machine_id),
            batch_message_bytes,
            n_turns: 0,
            acceptable_turn_distance,
            skip_turns_per_turn_head,
            network_connections,
            network,
        }
    }

    /// The machine id of this actor system.
    pub fn local_machine_id(&self) -> (id: MachineID)
        ensures
            id == self.machine_id(),
    {
        self.machine_id
    }

    /// The number of turns that this machine has ended.
    pub fn turns(&self) -> (n: usize)
        ensures
            n == self.n_turns(),
    {
        self.n_turns
    }

    /// The connection to the first machine, if there is one.
    pub fn main_out_connection(&self) -> (r: Option<&Connection>)
        requires
            self.wf(),
        ensures
            r is Some <==> self.is_connected(0),
            r matches Some(c) ==> *c == self.connections()[0]->0,
    {
        self.network_connections[0].as_ref()
    }

    /// The address of a machine.
    pub fn address(&self, machine_id: usize) -> (address: &String)
        requires
            machine_id < self.network().len(),
        ensures
            *address == self.network()[machine_id as int],
    {
        &self.network[machine_id]
    }

    /// The number of turn ends that came from a machine since this machine
    /// last ended a turn; `None` where there is no connection to it.
    pub fn turns_since_own_turn(&self, peer_machine_id: usize) -> (r: Option<usize>)
        ensures
            r is Some <==> self.is_connected(peer_machine_id as int),
            r matches Some(n) ==> n
                == self.connections()[peer_machine_id as int]->0.n_turns_since_own_turn(),
    {
        if peer_machine_id >= self.network_connections.len() {
            return None;
        }
        match &self.network_connections[peer_machine_id] {
            Some(connection) => Some(connection.n_turns_since_own_turn),
            None => None,
        }
    }

    /// The size above which a batch takes no further frame.
    pub fn batch_size(&self) -> (n: usize)
        ensures
            n == self.batch_message_bytes(),
    {
        self.batch_message_bytes
    }

    /// The number of machines.
    pub fn n_machines(&self) -> (n: usize)
        ensures
            n == self.network().len(),
    {
        self.network.len()
    }

    /// Whether a turn can be ended: the number of ended turns still fits the
    /// four bytes of a control frame, the number of turns to skip fits, and,
    /// where a peer is connected, a control frame fits a batch.
    pub open spec fn can_finish_turn(&self) -> bool {
        &&& self.n_turns() < 0xFFFF_FFFF
        &&& self.n_turns() * self.skip_turns_per_turn_head() <= usize::MAX
        &&& (exists|i: int| self.is_connected(i)) ==> self.batch_message_bytes() >= 6
    }

    /// Whether a turn can be ended.
    pub fn may_finish_turn(&self) -> (b: bool)
        requires
            self.wf(),
        ensures
            b == self.can_finish_turn(),
    {
        if self.n_turns >= 0xFFFF_FFFF {
            return false;
        }
        match self.n_turns.checked_mul(self.skip_turns_per_turn_head) {
            None => {
                return false;
            },
            Some(_) => {},
        }
        if self.batch_message_bytes >= 6 {
            return true;
        }
        let n = self.network_connections.len();
        let mut i: usize = 0;
        while i < n
            invariant
                i <= n,
                n == self.connections().len(),
                self.batch_message_bytes() < 6,
                self.n_turns() < 0xFFFF_FFFF,
                self.n_turns() * self.skip_turns_per_turn_head() <= usize::MAX,
                forall|k: int| 0 <= k < i ==> !self.is_connected(k),
            decreases n - i,
        {
            if self.network_connections[i].is_some() {
                assert(self.is_connected(i as int));
                return false;
            }
            i += 1;
        }
        true
    }

    /// Ends a turn of this machine. Every connected peer is told the new
    /// number of ended turns with a control frame. Before that, the peers'
    /// progress is looked at: where a peer is more than the acceptable
    /// distance behind, the result is the number of turns that the caller
    /// should skip.
    pub fn finish_turn(&mut self) -> (skip: Option<usize>)
        requires
            old(self).wf(),
            old(self).can_finish_turn(),
        ensures
            final(self).wf(),
            final(self).n_turns() == old(self).n_turns() + 1,
            final(self).machine_id() == old(self).machine_id(),
            final(self).network() == old(self).network(),
            final(self).batch_message_bytes() == old(self).batch_message_bytes(),
            final(self).acceptable_turn_distance() == old(self).acceptable_turn_distance(),
            final(self).skip_turns_per_turn_head() == old(self).skip_turns_per_turn_head(),
            match skip_turns(
                old(self).connections(),
                old(self).n_turns() as int,
                old(self).acceptable_turn_distance() as int,
                old(self).skip_turns_per_turn_head() as int,
            ) {
                Some(n) => skip == Some(n as usize) && n <= usize::MAX,
                None => skip is None,
            },
            final(self).connections().len() == old(self).connections().len(),
            forall|i: int|
                0 <= i < old(self).connections().len() ==> (#[trigger] final(self).connections()[i] is Some <==> old(self).connections()[i] is Some),
            forall|i: int| #[trigger]
                old(self).is_connected(i) ==> {
                    let before = old(self).connections()[i]->0;
                    let after = final(self).connections()[i]->0;
                    &&& after.batches() == enqueued(
                        before.batches(),
                        before.batch_message_bytes() as int,
                        control_frame((old(self).n_turns() + 1) as u32),
                    )
                    &&& concat(after.batches()) == concat(before.batches()) + batch_entry(
                        control_frame((old(self).n_turns() + 1) as u32),
                    )
                    &&& after.n_turns() == before.n_turns()
                    &&& after.n_turns_since_own_turn() == 0
                },
    {
        let mut maybe_skip_turns: Option<usize> = None;
        let n = self.network_connections.len();
        let mut i: usize = 0;
        while i < n
            invariant
                i <= n,
                n == self.connections().len(),
                self.n_turns() * self.skip_turns_per_turn_head() <= usize::MAX,
                match skip_turns(
                    self.connections().subrange(0, i as int),
                    self.n_turns() as int,
                    self.acceptable_turn_distance() as int,
                    self.skip_turns_per_turn_head() as int,
                ) {
                    Some(n) => maybe_skip_turns == Some(n as usize) && n <= usize::MAX,
                    None => maybe_skip_turns is None,
                },
            decreases n - i,
        {
            let ghost peers = self.connections().subrange(0, i + 1);
            assert(peers.drop_last() =~= self.connections().subrange(0, i as int));
            assert(peers.last() == self.connections()[i as int]);
            match &self.network_connections[i] {
                Some(connection) => {
                    let peer_turns = connection.peer_turns();
                    if self.n_turns > self.acceptable_turn_distance && peer_turns < self.n_turns
                        - self.acceptable_turn_distance {
                        let head = self.n_turns - self.acceptable_turn_distance - peer_turns;
                        assert(head * self.skip_turns_per_turn_head <= self.n_turns
                            * self.skip_turns_per_turn_head) by (nonlinear_arith)
                            requires
                                0 <= head <= self.n_turns,
                                0 <= self.skip_turns_per_turn_head,
                        ;
                        maybe_skip_turns = Some(head * self.skip_turns_per_turn_head);
                    }
                },
                None => {},
            }
            i += 1;
        }
        assert(self.connections().subrange(0, n as int) =~= self.connections());
        self.n_turns = self.n_turns + 1;
        let new_turns: u32 = self.n_turns as u32;
        let mut j: usize = 0;
        while j < n
            invariant
                j <= n,
                n == self.connections().len(),
                n == old(self).connections().len(),
                self.n_turns() == old(self).n_turns() + 1,
                new_turns == old(self).n_turns() + 1,
                self.machine_id() == old(self).machine_id(),
                self.network() == old(self).network(),
                self.batch_message_bytes() == old(self).batch_message_bytes(),
                self.acceptable_turn_distance() == old(self).acceptable_turn_distance(),
                self.skip_turns_per_turn_head() == old(self).skip_turns_per_turn_head(),
                old(self).wf(),
                (exists|i: int| old(self).is_connected(i)) ==> old(self).batch_message_bytes() >= 6,
                forall|i: int| j <= i < n ==> self.connections()[i] == old(self).connections()[i],
                forall|i: int|
                    0 <= i < n ==> (#[trigger] self.connections()[i] is Some <==> old(self).connections()[i] is Some),
                forall|i: int|
                    0 <= i < n ==> (#[trigger] self.connections()[i] matches Some(c) ==> c.wf()
                        && c.batch_message_bytes() == self.batch_message_bytes()),
                forall|i: int|
                    0 <= i < j && #[trigger] old(self).is_connected(i) ==> {
                        let before = old(self).connections()[i]->0;
                        let after = self.connections()[i]->0;
                        &&& after.batches() == enqueued(
                            before.batches(),
                            before.batch_message_bytes() as int,
                            control_frame(new_turns),
                        )
                        &&& concat(after.batches()) == concat(before.batches()) + batch_entry(
                            control_frame(new_turns),
                        )
                        &&& after.n_turns() == before.n_turns()
                        &&& after.n_turns_since_own_turn() == 0
                    },
            decreases n - j,
        {
            let mut slot: Option<Connection> = None;
            core::mem::swap(&mut slot, &mut self.network_connections[j]);
            match slot {
                Some(mut connection) => {
                    assert(old(self).is_connected(j as int));
                    connection.end_turn(new_turns);
                    self.network_connections[j] = Some(connection);
                },
                None => {},
            }
            j += 1;
        }
        maybe_skip_turns
    }
}

impl Networking {
    /// Whether a message to `recipient` goes to the machine `i`: to every
    /// machine for a global broadcast, else to the recipient's machine.
    pub open spec fn is_target(recipient: RawID, i: int) -> bool {
        recipient.spec_is_global_broadcast() || i == recipient.machine.0
    }

    /// Enqueues a message for the machine of its recipient, or for every
    /// peer where the recipient is a global broadcast. A machine to which
    /// there is no connection gets nothing. Alone in its network, a machine
    /// enqueues nothing.
    pub fn enqueue(&mut self, message_type_id: ShortTypeId, recipient: RawID, payload: &[u8])
        requires
            old(self).wf(),
            old(self).network().len() != 1 ==> {
                &&& 10 + payload@.len() <= old(self).batch_message_bytes()
                &&& 10 + payload@.len() <= 0xFFFF_FFFF
                &&& recipient.spec_is_global_broadcast() || recipient.machine.0
                    < old(self).network().len()
            },
        ensures
            final(self).wf(),
            final(self).n_turns() == old(self).n_turns(),
            final(self).machine_id() == old(self).machine_id(),
            final(self).network() == old(self).network(),
            final(self).batch_message_bytes() == old(self).batch_message_bytes(),
            final(self).acceptable_turn_distance() == old(self).acceptable_turn_distance(),
            final(self).skip_turns_per_turn_head() == old(self).skip_turns_per_turn_head(),
            final(self).connections().len() == old(self).connections().len(),
            old(self).network().len() == 1 ==> final(self).connections() == old(self).connections(),
            forall|i: int|
                0 <= i < old(self).connections().len() ==> (#[trigger] final(self).connections()[i] is Some <==> old(self).connections()[i] is Some),
            forall|i: int| #[trigger]
                old(self).is_connected(i) && old(self).network().len() != 1 ==> {
                    let before = old(self).connections()[i]->0;
                    let after = final(self).connections()[i]->0;
                    let frame = frame_bytes(message_type_id@, recipient@, payload@);
                    &&& after.n_turns() == before.n_turns()
                    &&& after.n_turns_since_own_turn() == before.n_turns_since_own_turn()
                    &&& Self::is_target(recipient, i) ==> after.batches() == enqueued(
                        before.batches(),
                        before.batch_message_bytes() as int,
                        frame,
                    ) && concat(after.batches()) == concat(before.batches()) + batch_entry(frame)
                    &&& !Self::is_target(recipient, i) ==> after == before
                },
    {
        let n = self.network.len();
        if n == 1 {
            return ;
        }
        let frame = build_frame(message_type_id, recipient, payload);
        let global = recipient.is_global_broadcast();
        let target = recipient.machine.0 as usize;
        let mut j: usize = 0;
        while j < n
            invariant
                j <= n,
                n != 1,
                n == self.connections().len(),
                n == old(self).connections().len(),
                n == old(self).network().len(),
                old(self).wf(),
                frame@ == frame_bytes(message_type_id@, recipient@, payload@),
                frame@.len() <= old(self).batch_message_bytes(),
                frame@.len() <= 0xFFFF_FFFF,
                global == recipient.spec_is_global_broadcast(),
                target == recipient.machine.0,
                self.n_turns() == old(self).n_turns(),
                self.machine_id() == old(self).machine_id(),
                self.network() == old(self).network(),
                self.batch_message_bytes() == old(self).batch_message_bytes(),
                self.acceptable_turn_distance() == old(self).acceptable_turn_distance(),
                self.skip_turns_per_turn_head() == old(self).skip_turns_per_turn_head(),
                forall|i: int| j <= i < n ==> self.connections()[i] == old(self).connections()[i],
                forall|i: int|
                    0 <= i < n ==> (#[trigger] self.connections()[i] is Some <==> old(self).connections()[i] is Some),
                forall|i: int|
                    0 <= i < n ==> (#[trigger] self.connections()[i] matches Some(c) ==> c.wf()
                        && c.batch_message_bytes() == self.batch_message_bytes()),
                forall|i: int|
                    0 <= i < j && #[trigger] old(self).is_connected(i) ==> {
                        let before = old(self).connections()[i]->0;
                        let after = self.connections()[i]->0;
                        &&& after.n_turns() == before.n_turns()
                        &&& after.n_turns_since_own_turn() == before.n_turns_since_own_turn()
                        &&& Self::is_target(recipient, i) ==> after.batches() == enqueued(
                            before.batches(),
                            before.batch_message_bytes() as int,
                            frame@,
                        ) && concat(after.batches()) == concat(before.batches()) + batch_entry(
                            frame@,
                        )
                        &&& !Self::is_target(recipient, i) ==> after == before
                    },
            decreases n - j,
        {
            if global || j == target {
                let mut slot: Option<Connection> = None;
                core::mem::swap(&mut slot, &mut self.network_connections[j]);
                match slot {
                    Some(mut connection) => {
                        assert(old(self).is_connected(j as int));
                        proof {
                            lemma_enqueued_concat(
                                connection.batches(),
                                connection.batch_message_bytes() as int,
                                frame@,
                            );
                        }
                        connection.enqueue_in_batch(frame.as_slice());
                        self.network_connections[j] = Some(connection);
                    },
                    None => {},
                }
            }
            j += 1;
        }
    }

    /// Whether this machine still waits for a machine with a larger id to
    /// connect: such machines dial, and this one listens for them.
    pub fn awaits_peer(&self) -> (b: bool)
        requires
            self.wf(),
        ensures
            b == exists|i: int|
                self.machine_id().0 < i < self.connections().len() && !self.is_connected(i),
    {
        let n = self.network_connections.len();
        let mut i: usize = self.machine_id.0 as usize + 1;
        while i < n
            invariant
                self.machine_id().0 < i,
                n == self.connections().len(),
                forall|k: int| self.machine_id().0 < k < i && k < n ==> self.is_connected(k),
            decreases n - i,
        {
            if self.network_connections[i].is_none() {
                assert(!self.is_connected(i as int));
                return true;
            }
            i += 1;
        }
        false
    }

    /// The machines that this machine has to dial: those with a smaller id
    /// to which there is no connection, in rising order.
    pub fn peers_to_dial(&self) -> (peers: Vec<usize>)
        requires
            self.wf(),
        ensures
            forall|k: int|
                0 <= k < peers@.len() ==> #[trigger] peers@[k] < self.machine_id().0
                    && !self.is_connected(peers@[k] as int),
            forall|i: int|
                0 <= i < self.machine_id().0 && !self.is_connected(i) ==> peers@.contains(
                    i as usize,
                ),
            forall|k: int, l: int| 0 <= k < l < peers@.len() ==> peers@[k] < peers@[l],
    {
        let mut peers: Vec<usize> = Vec::new();
        let own = self.machine_id.0 as usize;
        let mut i: usize = 0;
        while i < own
            invariant
                i <= own,
                own == self.machine_id().0,
                own < self.connections().len(),
                forall|k: int|
                    0 <= k < peers@.len() ==> #[trigger] peers@[k] < i && !self.is_connected(
                        peers@[k] as int,
                    ),
                forall|m: int| 0 <= m < i && !self.is_connected(m) ==> peers@.contains(m as usize),
                forall|k: int, l: int| 0 <= k < l < peers@.len() ==> peers@[k] < peers@[l],
            decreases own - i,
        {
            if self.network_connections[i].is_none() {
                let ghost before = peers@;
                peers.push(i);
                assert forall|m: int| 0 <= m < i + 1 && !self.is_connected(m) implies peers@.contains(
                    m as usize,
                ) by {
                    if m < i {
                        let k = choose|k: int| 0 <= k < before.len() && before[k] == m as usize;
                        assert(peers@[k] == m as usize);
                    } else {
                        assert(peers@[before.len() as int] == i);
                    }
                }
            }
            i += 1;
        }
        peers
    }

    /// The first message on a new connection, by which the dialling machine
    /// tells its id: one byte.
    pub fn handshake(&self) -> (message: Vec<u8>)
        ensures
            message@ == seq![self.machine_id().0],
    {
        let mut message: Vec<u8> = Vec::new();
        message.push(self.machine_id.0);
        message
    }

    /// The machine that a first message on a new connection tells of: the
    /// message's first byte, where it is the id of a machine of the network.
    pub fn peer_of_handshake(&self, message: &[u8]) -> (peer: Option<usize>)
        ensures
            peer is Some <==> message@.len() >= 1 && message@[0] < self.network().len(),
            peer matches Some(id) ==> id == message@[0],
    {
        if message.len() >= 1 && (message[0] as usize) < self.network.len() {
            Some(message[0] as usize)
        } else {
            None
        }
    }

    /// Takes the connection to a machine into use, in place of an older one if there was one.
    pub fn connected(&mut self, peer_machine_id: usize)
        requires
            old(self).wf(),
            peer_machine_id < old(self).connections().len(),
        ensures
            final(self).wf(),
            final(self).n_turns() == old(self).n_turns(),
            final(self).machine_id() == old(self).machine_id(),
            final(self).network() == old(self).network(),
            final(self).batch_message_bytes() == old(self).batch_message_bytes(),
            final(self).acceptable_turn_distance() == old(self).acceptable_turn_distance(),
            final(self).skip_turns_per_turn_head() == old(self).skip_turns_per_turn_head(),
            final(self).connections().len() == old(self).connections().len(),
            forall|i: int|
                0 <= i < old(self).connections().len() && i != peer_machine_id ==> final(self).connections()[i] == old(self).connections()[i],
            final(self).is_connected(peer_machine_id as int),
            ({
                let c = final(self).connections()[peer_machine_id as int]->0;
                c.n_turns() == 0 && c.n_turns_since_own_turn() == 0 && c.batches()
                    == seq![Seq::<u8>::empty()]
            }),
    {
        self.network_connections[peer_machine_id] = Some(Connection::new(self.batch_message_bytes));
    }

    /// Gives up the connection to a machine.
    pub fn close(&mut self, peer_machine_id: usize)
        requires
            old(self).wf(),
            peer_machine_id < old(self).connections().len(),
        ensures
            final(self).wf(),
            final(self).n_turns() == old(self).n_turns(),
            final(self).machine_id() == old(self).machine_id(),
            final(self).network() == old(self).network(),
            final(self).batch_message_bytes() == old(self).batch_message_bytes(),
            final(self).acceptable_turn_distance() == old(self).acceptable_turn_distance(),
            final(self).skip_turns_per_turn_head() == old(self).skip_turns_per_turn_head(),
            final(self).connections() == old(self).connections().update(
                peer_machine_id as int,
                None,
            ),
    {
        self.network_connections[peer_machine_id] = None;
    }

    /// Takes out the batches that wait to be sent to a machine, oldest
    /// first; none where there is no connection.
    pub fn take_pending(&mut self, peer_machine_id: usize) -> (batches: Vec<Vec<u8>>)
        requires
            old(self).wf(),
            peer_machine_id < old(self).connections().len(),
        ensures
            final(self).wf(),
            final(self).n_turns() == old(self).n_turns(),
            final(self).machine_id() == old(self).machine_id(),
            final(self).network() == old(self).network(),
            final(self).batch_message_bytes() == old(self).batch_message_bytes(),
            final(self).acceptable_turn_distance() == old(self).acceptable_turn_distance(),
            final(self).skip_turns_per_turn_head() == old(self).skip_turns_per_turn_head(),
            final(self).connections().len() == old(self).connections().len(),
            forall|i: int|
                0 <= i < old(self).connections().len() && i != peer_machine_id ==> final(self).connections()[i] == old(self).connections()[i],
            !old(self).is_connected(peer_machine_id as int) ==> batches@.len() == 0 && !final(self).is_connected(peer_machine_id as int),
            old(self).is_connected(peer_machine_id as int) ==> {
                let before = old(self).connections()[peer_machine_id as int]->0;
                &&& final(self).is_connected(peer_machine_id as int)
                &&& batches@.map_values(|b: Vec<u8>| b@) == before.batches()
                &&& final(self).connections()[peer_machine_id as int]->0.batches()
                    == seq![Seq::<u8>::empty()]
                &&& final(self).connections()[peer_machine_id as int]->0.n_turns()
                    == before.n_turns()
                &&& final(self).connections()[peer_machine_id as int]->0.n_turns_since_own_turn()
                    == before.n_turns_since_own_turn()
            },
    {
        let mut slot: Option<Connection> = None;
        core::mem::swap(&mut slot, &mut self.network_connections[peer_machine_id]);
        match slot {
            Some(mut connection) => {
                let batches = connection.take_pending();
                self.network_connections[peer_machine_id] = Some(connection);
                batches
            },
            None => Vec::new(),
        }
    }

    /// This machine's view of how far every machine is in its turns, by
    /// machine id: its own number of turns, each connected peer's, and -1
    /// for a machine to which there is no connection.
    pub fn debug_all_n_turns(&self) -> (all: Vec<(MachineID, isize)>)
        requires
            self.wf(),
        ensures
            all@.len() == self.connections().len(),
            forall|i: int|
                0 <= i < all@.len() ==> (#[trigger] all@[i]).0 == MachineID(i as u8) && all@[i].1
                    == (if i == self.machine_id().0 {
                    shown_turns(self.n_turns())
                } else if self.connections()[i] is Some {
                    shown_turns(self.connections()[i]->0.n_turns())
                } else {
                    -1
                }),
    {
        let mut all: Vec<(MachineID, isize)> = Vec::new();
        let n = self.network_connections.len();
        let mut i: usize = 0;
        while i < n
            invariant
                i <= n,
                n == self.connections().len(),
                n <= 256,
                all@.len() == i,
                forall|k: int|
                    0 <= k < i ==> (#[trigger] all@[k]).0 == MachineID(k as u8) && all@[k].1 == (if k
                        == self.machine_id().0 {
                        shown_turns(self.n_turns())
                    } else if self.connections()[k] is Some {
                        shown_turns(self.connections()[k]->0.n_turns())
                    } else {
                        -1
                    }),
            decreases n - i,
        {
            let turns: isize = if i == self.machine_id.0 as usize {
                as_shown(self.n_turns)
            } else {
                match &self.network_connections[i] {
                    Some(connection) => as_shown(connection.peer_turns()),
                    None => -1,
                }
            };
            all.push((MachineID(i as u8), turns));
            i += 1;
        }
        all
    }
}

// ---------------------------------------------------------------------------
// Routing frames into inboxes
// ---------------------------------------------------------------------------
/// The inbox of each class, by class id; `None` where there is no class.
pub open spec fn inboxes<H: Handler, S: Spawner>(classes: Seq<Option<Class<H, S>>>) -> Seq<
    Option<Seq<Seq<u8>>>,
> {
    classes.map_values(
        |c: Option<Class<H, S>>|
            match c {
                Some(class) => Some(class.inbox@),
                None => None,
            },
    )
}

/// Every class is well formed.
pub open spec fn classes_wf<H: Handler, S: Spawner>(classes: Seq<Option<Class<H, S>>>) -> bool {
    forall|i: int| 0 <= i < classes.len() ==> (#[trigger] classes[i] matches Some(c) ==> c.wf())
}

/// The classes are the same but for what waits in their inboxes.
pub open spec fn same_but_inboxes<H: Handler, S: Spawner>(
    before: Seq<Option<Class<H, S>>>,
    after: Seq<Option<Class<H, S>>>,
) -> bool {
    &&& after.len() == before.len()
    &&& forall|i: int|
        0 <= i < before.len() ==> match #[trigger] before[i] {
            Some(c) => after[i] matches Some(d) && d.instance_store == c.instance_store
                && d.v_table == c.v_table,
            None => after[i] is None,
        }
}

/// The classes that get a frame whose recipient has the given type: the
/// class of that type where there is one; else the implementors of the
/// trait of that type, each as often as it is listed; `None` where the type
/// is neither.
pub open spec fn targets(
    boxes: Seq<Option<Seq<Seq<u8>>>>,
    implementors: Seq<Option<Vec<ShortTypeId>>>,
    type_id: int,
) -> Option<Seq<int>> {
    if 0 <= type_id < boxes.len() && boxes[type_id] is Some {
        Some(seq![type_id])
    } else if 0 <= type_id < implementors.len() && implementors[type_id] is Some {
        Some(implementors[type_id]->0@.map_values(|t: ShortTypeId| t@ as int))
    } else {
        None
    }
}

/// Whether a frame whose recipient has the given type can be routed: the
/// type is a class or a trait, and every class that gets the frame exists.
pub open spec fn routable(
    boxes: Seq<Option<Seq<Seq<u8>>>>,
    implementors: Seq<Option<Vec<ShortTypeId>>>,
    type_id: int,
) -> bool {
    targets(boxes, implementors, type_id) matches Some(to) && forall|k: int|
        0 <= k < to.len() ==> 0 <= #[trigger] to[k] < boxes.len() && boxes[to[k]] is Some
}

/// The inboxes after a frame was appended to the inbox of each target, in order.
pub open spec fn delivered_to(boxes: Seq<Option<Seq<Seq<u8>>>>, to: Seq<int>, frame: Seq<u8>) -> Seq<
    Option<Seq<Seq<u8>>>,
>
    decreases to.len(),
{
    if to.len() == 0 {
        boxes
    } else {
        let rest = delivered_to(boxes, to.drop_last(), frame);
        rest.update(to.last(), Some(rest[to.last()]->0.push(frame)))
    }
}

/// The inboxes after a frame was routed by the type of its recipient.
pub open spec fn routed(
    boxes: Seq<Option<Seq<Seq<u8>>>>,
    implementors: Seq<Option<Vec<ShortTypeId>>>,
    type_id: int,
    frame: Seq<u8>,
) -> Seq<Option<Seq<Seq<u8>>>> {
    delivered_to(boxes, targets(boxes, implementors, type_id)->0, frame)
}

/// Delivering a frame keeps the inboxes where they are: none appears, none goes.
pub proof fn lemma_delivered_to_shape(boxes: Seq<Option<Seq<Seq<u8>>>>, to: Seq<int>, frame: Seq<u8>)
    requires
        forall|k: int| 0 <= k < to.len() ==> 0 <= #[trigger] to[k] < boxes.len() && boxes[to[k]] is Some,
    ensures
        delivered_to(boxes, to, frame).len() == boxes.len(),
        forall|i: int|
            0 <= i < boxes.len() ==> (#[trigger] delivered_to(boxes, to, frame)[i] is Some
                <==> boxes[i] is Some),
    decreases to.len(),
{
    if to.len() > 0 {
        assert forall|k: int| 0 <= k < to.drop_last().len() implies 0 <= #[trigger] to.drop_last()[k]
            < boxes.len() && boxes[to.drop_last()[k]] is Some by {
            assert(to.drop_last()[k] == to[k]);
        }
        lemma_delivered_to_shape(boxes, to.drop_last(), frame);
        assert(0 <= to[to.len() - 1] < boxes.len());
    }
}

/// A frame whose recipient's type is a class goes to the end of the inbox of
/// that class, and no other inbox changes.
pub proof fn lemma_routed_to_class(
    boxes: Seq<Option<Seq<Seq<u8>>>>,
    implementors: Seq<Option<Vec<ShortTypeId>>>,
    type_id: int,
    frame: Seq<u8>,
)
    requires
        0 <= type_id < boxes.len(),
        boxes[type_id] is Some,
    ensures
        routed(boxes, implementors, type_id, frame) == boxes.update(
            type_id,
            Some(boxes[type_id]->0.push(frame)),
        ),
{
    let to = seq![type_id];
    assert(to.drop_last() =~= Seq::<int>::empty());
    assert(delivered_to(boxes, to.drop_last(), frame) == boxes);
}

/// A frame that is delivered to classes that all exist and all differ goes
/// once to the end of the inbox of each, and no other inbox changes.
pub proof fn lemma_delivered_once(boxes: Seq<Option<Seq<Seq<u8>>>>, to: Seq<int>, frame: Seq<u8>)
    requires
        forall|k: int| 0 <= k < to.len() ==> 0 <= #[trigger] to[k] < boxes.len() && boxes[to[k]] is Some,
        to.no_duplicates(),
    ensures
        delivered_to(boxes, to, frame).len() == boxes.len(),
        forall|c: int|
            0 <= c < boxes.len() ==> #[trigger] delivered_to(boxes, to, frame)[c] == (if to.contains(
                c,
            ) {
                Some(boxes[c]->0.push(frame))
            } else {
                boxes[c]
            }),
    decreases to.len(),
{
    if to.len() > 0 {
        let rest = to.drop_last();
        assert forall|k: int| 0 <= k < rest.len() implies 0 <= #[trigger] rest[k] < boxes.len()
            && boxes[rest[k]] is Some by {
            assert(rest[k] == to[k]);
        }
        assert(rest.no_duplicates()) by {
            assert forall|i: int, j: int| 0 <= i < rest.len() && 0 <= j < rest.len() && i != j implies rest[i]
                != rest[j] by {
                assert(rest[i] == to[i] && rest[j] == to[j]);
            }
        }
        lemma_delivered_once(boxes, rest, frame);
        let last = to.last();
        assert(!rest.contains(last)) by {
            if rest.contains(last) {
                let i = choose|i: int| 0 <= i < rest.len() && rest[i] == last;
                assert(to[i] == to[to.len() - 1]);
            }
        }
        assert forall|c: int| 0 <= c < boxes.len() implies #[trigger] delivered_to(boxes, to, frame)[c]
            == (if to.contains(c) {
            Some(boxes[c]->0.push(frame))
        } else {
            boxes[c]
        }) by {
            if c == last {
                assert(to[to.len() - 1] == c);
            } else if rest.contains(c) {
                let i = choose|i: int| 0 <= i < rest.len() && rest[i] == c;
                assert(to[i] == c);
            } else if to.contains(c) {
                let i = choose|i: int| 0 <= i < to.len() && to[i] == c;
                assert(rest[i] == c);
            }
        }
    }
}

/// Whether an inbox has only got frames at its end: what waited in it
/// before still waits at its front, in its order.
pub open spec fn grown(before: Seq<Seq<u8>>, after: Seq<Seq<u8>>) -> bool {
    before.len() <= after.len() && after.subrange(0, before.len() as int) == before
}

/// Whether the classes are the same but that their inboxes have got frames at their ends.
pub open spec fn inboxes_grown<H: Handler, S: Spawner>(
    before: Seq<Option<Class<H, S>>>,
    after: Seq<Option<Class<H, S>>>,
) -> bool {
    &&& after.len() == before.len()
    &&& forall|i: int|
        0 <= i < before.len() ==> match #[trigger] before[i] {
            Some(c) => after[i] matches Some(d) && d.instance_store == c.instance_store
                && d.v_table == c.v_table && grown(c.inbox@, d.inbox@),
            None => after[i] is None,
        }
}

/// Delivering a frame lets every inbox grow at its end, if at all.
pub proof fn lemma_delivered_grows(boxes: Seq<Option<Seq<Seq<u8>>>>, to: Seq<int>, frame: Seq<u8>)
    requires
        forall|k: int| 0 <= k < to.len() ==> 0 <= #[trigger] to[k] < boxes.len() && boxes[to[k]] is Some,
    ensures
        delivered_to(boxes, to, frame).len() == boxes.len(),
        forall|i: int|
            0 <= i < boxes.len() ==> match boxes[i] {
                Some(b) => (#[trigger] delivered_to(boxes, to, frame)[i]) matches Some(d) && grown(
                    b,
                    d,
                ),
                None => delivered_to(boxes, to, frame)[i] is None,
            },
    decreases to.len(),
{
    if to.len() > 0 {
        let rest = to.drop_last();
        assert forall|k: int| 0 <= k < rest.len() implies 0 <= #[trigger] rest[k] < boxes.len()
            && boxes[rest[k]] is Some by {
            assert(rest[k] == to[k]);
        }
        lemma_delivered_grows(boxes, rest, frame);
        let mid = delivered_to(boxes, rest, frame);
        let last = to.last();
        assert(0 <= to[to.len() - 1] < boxes.len());
        assert forall|i: int| 0 <= i < boxes.len() implies match boxes[i] {
            Some(b) => (#[trigger] delivered_to(boxes, to, frame)[i]) matches Some(d) && grown(b, d),
            None => delivered_to(boxes, to, frame)[i] is None,
        } by {
            assert(mid[i] is Some <==> boxes[i] is Some);
            if i == last {
                let b = boxes[i]->0;
                let m = mid[i]->0;
                assert(grown(b, m));
                assert(m.push(frame).subrange(0, b.len() as int) =~= m.subrange(0, b.len() as int));
            }
        }
    } else {
        assert forall|i: int| 0 <= i < boxes.len() implies match boxes[i] {
            Some(b) => (#[trigger] delivered_to(boxes, to, frame)[i]) matches Some(d) && grown(b, d),
            None => delivered_to(boxes, to, frame)[i] is None,
        } by {
            if boxes[i] is Some {
                assert(boxes[i]->0.subrange(0, boxes[i]->0.len() as int) =~= boxes[i]->0);
            }
        }
    }
}

/// Growing carries over: what has grown from an inbox that has grown has grown from the first.
pub proof fn lemma_inboxes_grown_trans<H: Handler, S: Spawner>(
    a: Seq<Option<Class<H, S>>>,
    b: Seq<Option<Class<H, S>>>,
    c: Seq<Option<Class<H, S>>>,
)
    requires
        inboxes_grown(a, b),
        inboxes_grown(b, c),
    ensures
        inboxes_grown(a, c),
{
    assert forall|i: int| 0 <= i < a.len() implies match #[trigger] a[i] {
        Some(x) => c[i] matches Some(z) && z.instance_store == x.instance_store && z.v_table
            == x.v_table && grown(x.inbox@, z.inbox@),
        None => c[i] is None,
    } by {
        assert(b[i] is Some <==> a[i] is Some);
        if a[i] is Some {
            let x = a[i]->0.inbox@;
            let y = b[i]->0.inbox@;
            let z = c[i]->0.inbox@;
            assert(z.subrange(0, x.len() as int) =~= z.subrange(0, y.len() as int).subrange(
                0,
                x.len() as int,
            ));
        }
    }
}

fn put_raw_into<H: Handler, S: Spawner>(
    classes: &mut Vec<Option<Class<H, S>>>,
    index: usize,
    frame: &[u8],
)
    requires
        classes_wf(old(classes)@),
        index < old(classes)@.len(),
        old(classes)@[index as int] is Some,
        is_data_frame(frame@),
    ensures
        classes_wf(final(classes)@),
        same_but_inboxes(old(classes)@, final(classes)@),
        inboxes(final(classes)@) == inboxes(old(classes)@).update(
            index as int,
            Some(inboxes(old(classes)@)[index as int]->0.push(frame@)),
        ),
{
    let mut slot: Option<Class<H, S>> = None;
    core::mem::swap(&mut slot, &mut classes[index]);
    let mut class = slot.unwrap();
    class.inbox.put_raw(frame);
    classes[index] = Some(class);
    assert(inboxes(classes@) =~= inboxes(old(classes)@).update(
        index as int,
        Some(inboxes(old(classes)@)[index as int]->0.push(frame@)),
    ));
}

/// Whether a frame whose recipient has the given type can be routed.
pub fn is_routable<H: Handler, S: Spawner>(
    classes: &Vec<Option<Class<H, S>>>,
    implementors: &Vec<Option<Vec<ShortTypeId>>>,
    type_id: ShortTypeId,
) -> (b: bool)
    ensures
        b == routable(inboxes(classes@), implementors@, type_id@ as int),
{
    let t = type_id.as_usize();
    let ghost boxes = inboxes(classes@);
    if t < classes.len() && classes[t].is_some() {
        assert(targets(boxes, implementors@, t as int) == Some(seq![t as int]));
        return true;
    }
    if t < implementors.len() {
        match &implementors[t] {
            Some(list) => {
                let ghost to = list@.map_values(|t: ShortTypeId| t@ as int);
                assert(targets(boxes, implementors@, type_id@ as int) == Some(to));
                let mut k: usize = 0;
                while k < list.len()
                    invariant
                        k <= list@.len(),
                        boxes == inboxes(classes@),
                        to == list@.map_values(|t: ShortTypeId| t@ as int),
                        targets(boxes, implementors@, type_id@ as int) == Some(to),
                        forall|j: int|
                            0 <= j < k ==> 0 <= #[trigger] to[j] < boxes.len() && boxes[to[j]] is Some,
                    decreases list@.len() - k,
                {
                    let c = list[k].as_usize();
                    if c >= classes.len() || classes[c].is_none() {
                        assert(to[k as int] == c);
                        return false;
                    }
                    k += 1;
                }
                true
            },
            None => false,
        }
    } else {
        false
    }
}

/// Appends a frame to the inbox of the class of its recipient's type, or,
/// where that type is a trait, to the inbox of each implementor.
pub fn deliver_frame<H: Handler, S: Spawner>(
    classes: &mut Vec<Option<Class<H, S>>>,
    implementors: &Vec<Option<Vec<ShortTypeId>>>,
    type_id: ShortTypeId,
    frame: &[u8],
)
    requires
        classes_wf(old(classes)@),
        is_data_frame(frame@),
        routable(inboxes(old(classes)@), implementors@, type_id@ as int),
    ensures
        classes_wf(final(classes)@),
        same_but_inboxes(old(classes)@, final(classes)@),
        inboxes(final(classes)@) == routed(
            inboxes(old(classes)@),
            implementors@,
            type_id@ as int,
            frame@,
        ),
{
    let t = type_id.as_usize();
    let ghost boxes = inboxes(classes@);
    if t < classes.len() && classes[t].is_some() {
        put_raw_into(classes, t, frame);
        proof {
            let to = seq![t as int];
            assert(to.drop_last() =~= Seq::<int>::empty());
            assert(delivered_to(boxes, to.drop_last(), frame@) == boxes);
        }
        return ;
    }
    let list = implementors[t].as_ref().unwrap();
    let ghost to = list@.map_values(|t: ShortTypeId| t@ as int);
    let mut k: usize = 0;
    assert(to.subrange(0, 0) =~= Seq::<int>::empty());
    while k < list.len()
        invariant
            k <= list@.len(),
            boxes == inboxes(old(classes)@),
            to == list@.map_values(|t: ShortTypeId| t@ as int),
            forall|j: int| 0 <= j < to.len() ==> 0 <= #[trigger] to[j] < boxes.len() && boxes[to[j]] is Some,
            is_data_frame(frame@),
            classes_wf(classes@),
            same_but_inboxes(old(classes)@, classes@),
            inboxes(classes@) == delivered_to(boxes, to.subrange(0, k as int), frame@),
        decreases list@.len() - k,
    {
        let c = list[k].as_usize();
        proof {
            assert(to[k as int] == c);
            assert forall|j: int| 0 <= j < to.subrange(0, k as int).len() implies 0
                <= #[trigger] to.subrange(0, k as int)[j] < boxes.len() && boxes[to.subrange(
                0,
                k as int,
            )[j]] is Some by {
                assert(to.subrange(0, k as int)[j] == to[j]);
            }
            lemma_delivered_to_shape(boxes, to.subrange(0, k as int), frame@);
            assert(to.subrange(0, k + 1).drop_last() =~= to.subrange(0, k as int));
            assert(inboxes(classes@)[c as int] is Some);
        }
        let ghost mid = classes@;
        put_raw_into(classes, c, frame);
        proof {
            assert forall|i: int| 0 <= i < old(classes)@.len() implies match #[trigger] old(classes)@[i] {
                Some(x) => classes@[i] matches Some(d) && d.instance_store == x.instance_store
                    && d.v_table == x.v_table,
                None => classes@[i] is None,
            } by {
                assert(mid[i] is Some <==> old(classes)@[i] is Some);
            }
        }
        k += 1;
    }
    assert(to.subrange(0, to.len() as int) =~= to);
}

// ---------------------------------------------------------------------------
// Inbound batches
// ---------------------------------------------------------------------------
/// The number of turn ends of a peer after which this machine stops
/// receiving from it until it has ended a turn of its own.
pub const MAX_TURNS_AHEAD: usize = 10;

/// What the dispatch of a batch works on: the inboxes, the number of the
/// peer's last turn, the number of turn ends since this machine's own, and
/// whether a turn end has asked to wait.
pub struct BatchState {
    pub boxes: Seq<Option<Seq<Seq<u8>>>>,
    pub n_turns: int,
    pub since: int,
    pub wait: bool,
}

/// Whether a message of a batch can be dispatched: it is a control frame
/// with a turn number, or a frame with a message that can be routed.
pub open spec fn message_ok(
    f: Seq<u8>,
    boxes: Seq<Option<Seq<Seq<u8>>>>,
    implementors: Seq<Option<Vec<ShortTypeId>>>,
) -> bool {
    f.len() >= 2 && if le_u16(f, 0) == 0 {
        f.len() >= 6
    } else {
        is_data_frame(f) && routable(boxes, implementors, frame_recipient(f).type_id as int)
    }
}

/// The state after a message of a batch was dispatched. A control frame
/// sets the number of the peer's last turn and counts as a turn end; from
/// the tenth turn end on it asks to wait. Any other frame is routed into
/// the inboxes.
pub open spec fn after_message(
    st: BatchState,
    f: Seq<u8>,
    implementors: Seq<Option<Vec<ShortTypeId>>>,
) -> BatchState {
    if le_u16(f, 0) == 0 {
        BatchState {
            n_turns: le_u32(f, 2),
            since: st.since + 1,
            wait: st.wait || st.since + 1 >= MAX_TURNS_AHEAD,
            ..st
        }
    } else {
        BatchState {
            boxes: routed(st.boxes, implementors, frame_recipient(f).type_id as int, f),
            ..st
        }
    }
}

/// Whether the bytes from `pos` on are messages that can be dispatched,
/// each behind its length in four bytes.
pub open spec fn batch_ok(
    data: Seq<u8>,
    pos: int,
    boxes: Seq<Option<Seq<Seq<u8>>>>,
    implementors: Seq<Option<Vec<ShortTypeId>>>,
) -> bool
    decreases data.len() - pos,
{
    if pos < 0 || pos >= data.len() {
        true
    } else {
        &&& pos + 4 <= data.len()
        &&& pos + 4 + le_u32(data, pos) <= data.len()
        &&& message_ok(data.subrange(pos + 4, pos + 4 + le_u32(data, pos)), boxes, implementors)
        &&& batch_ok(data, pos + 4 + le_u32(data, pos), boxes, implementors)
    }
}

/// The state after the messages from `pos` on were dispatched in order.
pub open spec fn dispatched_from(
    data: Seq<u8>,
    pos: int,
    st: BatchState,
    implementors: Seq<Option<Vec<ShortTypeId>>>,
) -> BatchState
    decreases data.len() - pos,
{
    if pos < 0 || pos >= data.len() || pos + 4 > data.len() || pos + 4 + le_u32(data, pos)
        > data.len() {
        st
    } else {
        dispatched_from(
            data,
            pos + 4 + le_u32(data, pos),
            after_message(
                st,
                data.subrange(pos + 4, pos + 4 + le_u32(data, pos)),
                implementors,
            ),
            implementors,
        )
    }
}

/// Whether a frame can be routed depends on which classes exist, not on what waits in their inboxes.
pub proof fn lemma_message_ok_presence(
    f: Seq<u8>,
    boxes: Seq<Option<Seq<Seq<u8>>>>,
    other: Seq<Option<Seq<Seq<u8>>>>,
    implementors: Seq<Option<Vec<ShortTypeId>>>,
)
    requires
        other.len() == boxes.len(),
        forall|i: int| 0 <= i < boxes.len() ==> (#[trigger] other[i] is Some <==> boxes[i] is Some),
    ensures
        message_ok(f, boxes, implementors) == message_ok(f, other, implementors),
{
    let t = frame_recipient(f).type_id as int;
    if 0 <= t < boxes.len() {
        assert(other[t] is Some <==> boxes[t] is Some);
    }
    if targets(boxes, implementors, t) is Some {
        let to = targets(boxes, implementors, t)->0;
        assert(targets(other, implementors, t) == Some(to));
        if routable(boxes, implementors, t) {
            assert forall|k: int| 0 <= k < to.len() implies 0 <= #[trigger] to[k] < other.len()
                && other[to[k]] is Some by {
                assert(other[to[k]] is Some <==> boxes[to[k]] is Some);
            }
        }
        if routable(other, implementors, t) {
            assert forall|k: int| 0 <= k < to.len() implies 0 <= #[trigger] to[k] < boxes.len()
                && boxes[to[k]] is Some by {
                assert(other[to[k]] is Some <==> boxes[to[k]] is Some);
            }
        }
    }
}

/// Whether a batch can be dispatched depends on which classes exist, not on what waits in their inboxes.
pub proof fn lemma_batch_ok_presence(
    data: Seq<u8>,
    pos: int,
    boxes: Seq<Option<Seq<Seq<u8>>>>,
    other: Seq<Option<Seq<Seq<u8>>>>,
    implementors: Seq<Option<Vec<ShortTypeId>>>,
)
    requires
        other.len() == boxes.len(),
        forall|i: int| 0 <= i < boxes.len() ==> (#[trigger] other[i] is Some <==> boxes[i] is Some),
    ensures
        batch_ok(data, pos, boxes, implementors) == batch_ok(data, pos, other, implementors),
    decreases data.len() - pos,
{
    if !(pos < 0 || pos >= data.len()) {
        let size = le_u32(data, pos);
        lemma_message_ok_presence(
            data.subrange(pos + 4, pos + 4 + size),
            boxes,
            other,
            implementors,
        );
        if pos + 4 <= data.len() && pos + 4 + size <= data.len() {
            lemma_batch_ok_presence(data, pos + 4 + size, boxes, other, implementors);
        }
    }
}

/// Whether a message of a batch can be dispatched.
pub fn can_dispatch_message<H: Handler, S: Spawner>(
    data: &[u8],
    classes: &Vec<Option<Class<H, S>>>,
    implementors: &Vec<Option<Vec<ShortTypeId>>>,
) -> (b: bool)
    ensures
        b == message_ok(data@, inboxes(classes@), implementors@),
{
    if data.len() < 2 {
        return false;
    }
    if data[0] == 0 && data[1] == 0 {
        data.len() >= 6
    } else if data.len() < 10 {
        false
    } else {
        match read_raw_id(data, 2) {
            None => false,
            Some(recipient_id) => is_routable(classes, implementors, recipient_id.type_id),
        }
    }
}

/// Dispatches one message of a batch. A control frame tells where the peer
/// is in its turns, and the result says whether the caller should stop
/// receiving from this peer for now; any other frame goes into the inbox of
/// its recipient's class, or of each implementor of its recipient's trait.
pub fn dispatch_message<H: Handler, S: Spawner>(
    data: &[u8],
    classes: &mut Vec<Option<Class<H, S>>>,
    implementors: &Vec<Option<Vec<ShortTypeId>>>,
    n_turns: &mut usize,
    n_turns_since_own_turn: &mut usize,
) -> (wants_to_wait: bool)
    requires
        classes_wf(old(classes)@),
        message_ok(data@, inboxes(old(classes)@), implementors@),
        le_u16(data@, 0) == 0 ==> *old(n_turns_since_own_turn) < usize::MAX,
    ensures
        classes_wf(final(classes)@),
        same_but_inboxes(old(classes)@, final(classes)@),
        ({
            let st = after_message(
                BatchState {
                    boxes: inboxes(old(classes)@),
                    n_turns: *old(n_turns) as int,
                    since: *old(n_turns_since_own_turn) as int,
                    wait: false,
                },
                data@,
                implementors@,
            );
            &&& inboxes(final(classes)@) == st.boxes
            &&& *final(n_turns) == st.n_turns
            &&& *final(n_turns_since_own_turn) == st.since
            &&& wants_to_wait == st.wait
        }),
{
    if data[0] == 0 && data[1] == 0 {
        *n_turns = read_u32_at(data, 2) as usize;
        *n_turns_since_own_turn = *n_turns_since_own_turn + 1;
        assert(same_but_inboxes(old(classes)@, classes@));
        *n_turns_since_own_turn >= MAX_TURNS_AHEAD
    } else {
        let recipient_id = read_raw_id(data, 2).unwrap();
        deliver_frame(classes, implementors, recipient_id.type_id, data);
        false
    }
}

/// Whether a batch can be dispatched: it is made of messages that can be
/// dispatched, each behind its length.
pub fn can_dispatch_batch<H: Handler, S: Spawner>(
    data: &[u8],
    classes: &Vec<Option<Class<H, S>>>,
    implementors: &Vec<Option<Vec<ShortTypeId>>>,
) -> (b: bool)
    ensures
        b == batch_ok(data@, 0, inboxes(classes@), implementors@),
{
    let n = data.len();
    let mut pos: usize = 0;
    while pos < n
        invariant
            pos <= n,
            n == data@.len(),
            batch_ok(data@, 0, inboxes(classes@), implementors@) == batch_ok(
                data@,
                pos as int,
                inboxes(classes@),
                implementors@,
            ),
        decreases n - pos,
    {
        if n - pos < 4 {
            return false;
        }
        let size = read_u32_at(data, pos) as usize;
        if n - pos - 4 < size {
            return false;
        }
        let message = slice_subrange(data, pos + 4, pos + 4 + size);
        if !can_dispatch_message(message, classes, implementors) {
            return false;
        }
        pos = pos + 4 + size;
    }
    true
}

/// Dispatches the messages of a batch in order. The result says whether a
/// turn end in the batch has asked to wait.
pub fn dispatch_batch<H: Handler, S: Spawner>(
    data: &[u8],
    classes: &mut Vec<Option<Class<H, S>>>,
    implementors: &Vec<Option<Vec<ShortTypeId>>>,
    n_turns: &mut usize,
    n_turns_since_own_turn: &mut usize,
) -> (one_wants_to_wait: bool)
    requires
        classes_wf(old(classes)@),
        batch_ok(data@, 0, inboxes(old(classes)@), implementors@),
        *old(n_turns_since_own_turn) + data@.len() <= usize::MAX,
    ensures
        classes_wf(final(classes)@),
        same_but_inboxes(old(classes)@, final(classes)@),
        ({
            let st = dispatched_from(
                data@,
                0,
                BatchState {
                    boxes: inboxes(old(classes)@),
                    n_turns: *old(n_turns) as int,
                    since: *old(n_turns_since_own_turn) as int,
                    wait: false,
                },
                implementors@,
            );
            &&& inboxes(final(classes)@) == st.boxes
            &&& *final(n_turns) == st.n_turns
            &&& *final(n_turns_since_own_turn) == st.since
            &&& one_wants_to_wait == st.wait
        }),
{
    let n = data.len();
    let mut pos: usize = 0;
    let mut one_wants_to_wait = false;
    let ghost start = BatchState {
        boxes: inboxes(classes@),
        n_turns: *n_turns as int,
        since: *n_turns_since_own_turn as int,
        wait: false,
    };
    while pos < n
        invariant
            pos <= n,
            n == data@.len(),
            classes_wf(classes@),
            same_but_inboxes(old(classes)@, classes@),
            batch_ok(data@, pos as int, inboxes(classes@), implementors@),
            *n_turns_since_own_turn + (n - pos) <= usize::MAX,
            dispatched_from(data@, 0, start, implementors@) == dispatched_from(
                data@,
                pos as int,
                BatchState {
                    boxes: inboxes(classes@),
                    n_turns: *n_turns as int,
                    since: *n_turns_since_own_turn as int,
                    wait: one_wants_to_wait,
                },
                implementors@,
            ),
        decreases n - pos,
    {
        let size = read_u32_at(data, pos) as usize;
        let message = slice_subrange(data, pos + 4, pos + 4 + size);
        let ghost before = classes@;
        let ghost st = BatchState {
            boxes: inboxes(classes@),
            n_turns: *n_turns as int,
            since: *n_turns_since_own_turn as int,
            wait: one_wants_to_wait,
        };
        let wants_to_wait = dispatch_message(
            message,
            classes,
            implementors,
            n_turns,
            n_turns_since_own_turn,
        );
        proof {
            assert(after_message(st, message@, implementors@) == (BatchState {
                boxes: inboxes(classes@),
                n_turns: *n_turns as int,
                since: *n_turns_since_own_turn as int,
                wait: one_wants_to_wait || wants_to_wait,
            }));
            assert forall|i: int| 0 <= i < inboxes(before).len() implies (#[trigger] inboxes(
                classes@,
            )[i] is Some <==> inboxes(before)[i] is Some) by {
                assert(before[i] is Some <==> classes@[i] is Some);
            }
            lemma_batch_ok_presence(
                data@,
                pos + 4 + size,
                inboxes(before),
                inboxes(classes@),
                implementors@,
            );
            assert forall|i: int| 0 <= i < old(classes)@.len() implies match #[trigger] old(classes)@[i] {
                Some(x) => classes@[i] matches Some(d) && d.instance_store == x.instance_store
                    && d.v_table == x.v_table,
                None => classes@[i] is None,
            } by {
                assert(before[i] is Some <==> old(classes)@[i] is Some);
            }
        }
        one_wants_to_wait = one_wants_to_wait || wants_to_wait;
        pos = pos + 4 + size;
    }
    one_wants_to_wait
}

/// The largest number of ended turns among the connected peers, and 0 where none is connected.
pub open spec fn max_peer_turns(peers: Seq<Option<Connection>>) -> nat
    decreases peers.len(),
{
    if peers.len() == 0 {
        0
    } else {
        let rest = max_peer_turns(peers.drop_last());
        match peers.last() {
            Some(c) => if c.n_turns() > rest {
                c.n_turns()
            } else {
                rest
            },
            None => rest,
        }
    }
}

impl Networking {
    /// Dispatches a batch that came from a peer: its messages go into the
    /// inboxes, and its turn ends are counted for the connection. The result
    /// says whether to stop receiving from this peer for now.
    pub fn receive<H: Handler, S: Spawner>(
        &mut self,
        peer_machine_id: usize,
        data: &[u8],
        classes: &mut Vec<Option<Class<H, S>>>,
        implementors: &Vec<Option<Vec<ShortTypeId>>>,
    ) -> (wants_to_wait: bool)
        requires
            old(self).wf(),
            old(self).is_connected(peer_machine_id as int),
            classes_wf(old(classes)@),
            batch_ok(data@, 0, inboxes(old(classes)@), implementors@),
            old(self).connections()[peer_machine_id as int]->0.n_turns_since_own_turn()
                + data@.len() <= usize::MAX,
        ensures
            final(self).wf(),
            final(self).n_turns() == old(self).n_turns(),
            final(self).machine_id() == old(self).machine_id(),
            final(self).network() == old(self).network(),
            final(self).batch_message_bytes() == old(self).batch_message_bytes(),
            final(self).acceptable_turn_distance() == old(self).acceptable_turn_distance(),
            final(self).skip_turns_per_turn_head() == old(self).skip_turns_per_turn_head(),
            final(self).connections().len() == old(self).connections().len(),
            forall|i: int|
                0 <= i < old(self).connections().len() && i != peer_machine_id ==> final(self).connections()[i] == old(self).connections()[i],
            final(self).is_connected(peer_machine_id as int),
            classes_wf(final(classes)@),
            same_but_inboxes(old(classes)@, final(classes)@),
            ({
                let before = old(self).connections()[peer_machine_id as int]->0;
                let after = final(self).connections()[peer_machine_id as int]->0;
                let st = dispatched_from(
                    data@,
                    0,
                    BatchState {
                        boxes: inboxes(old(classes)@),
                        n_turns: before.n_turns() as int,
                        since: before.n_turns_since_own_turn() as int,
                        wait: false,
                    },
                    implementors@,
                );
                &&& inboxes(final(classes)@) == st.boxes
                &&& after.n_turns() == st.n_turns
                &&& after.n_turns_since_own_turn() == st.since
                &&& after.batches() == before.batches()
                &&& wants_to_wait == st.wait
            }),
    {
        let mut slot: Option<Connection> = None;
        core::mem::swap(&mut slot, &mut self.network_connections[peer_machine_id]);
        let mut connection = slot.unwrap();
        let mut n_turns = connection.n_turns;
        let mut since = connection.n_turns_since_own_turn;
        let wants_to_wait = dispatch_batch(data, classes, implementors, &mut n_turns, &mut since);
        connection.n_turns = n_turns;
        connection.n_turns_since_own_turn = since;
        self.network_connections[peer_machine_id] = Some(connection);
        wants_to_wait
    }

    /// Lets a machine that has fallen far behind jump ahead: where a peer
    /// is more than 1000 turns ahead of this machine, this machine takes
    /// the largest number of turns among its peers for its own.
    pub fn catch_up(&mut self)
        requires
            old(self).wf(),
        ensures
            final(self).wf(),
            final(self).connections() == old(self).connections(),
            final(self).machine_id() == old(self).machine_id(),
            final(self).network() == old(self).network(),
            final(self).batch_message_bytes() == old(self).batch_message_bytes(),
            final(self).acceptable_turn_distance() == old(self).acceptable_turn_distance(),
            final(self).skip_turns_per_turn_head() == old(self).skip_turns_per_turn_head(),
            final(self).n_turns() == if max_peer_turns(old(self).connections()) > 1000 + old(self).n_turns() {
                max_peer_turns(old(self).connections())
            } else {
                old(self).n_turns()
            },
    {
        let n = self.network_connections.len();
        let mut max_n_turns: usize = 0;
        let mut i: usize = 0;
        while i < n
            invariant
                i <= n,
                n == self.connections().len(),
                max_n_turns == max_peer_turns(self.connections().subrange(0, i as int)),
            decreases n - i,
        {
            assert(self.connections().subrange(0, i + 1).drop_last() =~= self.connections().subrange(
                0,
                i as int,
            ));
            match &self.network_connections[i] {
                Some(connection) => {
                    let turns = connection.peer_turns();
                    if turns > max_n_turns {
                        max_n_turns = turns;
                    }
                },
                None => {},
            }
            i += 1;
        }
        assert(self.connections().subrange(0, n as int) =~= self.connections());
        if max_n_turns > self.n_turns && max_n_turns - self.n_turns > 1000 {
            self.n_turns = max_n_turns;
        }
    }
}

} // verus!
