use crate::class::instance_store::agrees;
use crate::class::instance_store::model::StoreModel;
use crate::class::{
    count_type, counted, dispatch_result, dispatched_all, entry_for, id_views, messages_ran,
    ActorVTable, Class, Failure, MAX_MESSAGE_TYPES,
};
use crate::id::{MachineID, RawID, RawIDView};
use crate::messaging::{Handler, Message, Spawner};
use crate::networking::{
    batch_entry, batch_ok, can_dispatch_batch, classes_wf, concat, control_frame, deliver_frame,
    dispatched_from, enqueued, grown, inboxes, inboxes_grown, is_routable,
    lemma_delivered_grows, lemma_inboxes_grown_trans, routable, routed, same_but_inboxes, targets,
    collect_chars, skip_turns, BatchState, Networking,
};
use crate::tuning::Tuning;
use crate::type_registry::{ShortTypeId, TypeRegistry};
use crate::wire::{build_frame, frame_bytes, frame_message_type, frame_recipient};
use crate::world::{allocated, Envelope, World};
use vstd::prelude::*;

verus! {

/// The number of actor classes and actor traits that a system can tell
/// apart. Ids start at 1, so a system holds one type less.
pub const MAX_RECIPIENT_TYPES: usize = 64;

/// The number of cycles over all classes that one call of
/// `process_all_messages` makes at most.
pub const MAX_CYCLES: usize = 1000;

/// The state of a whole actor system: its classes with their instances and
/// inboxes, its registries of types and messages, and its networking.
pub struct ActorSystem<H: Handler, S: Spawner> {
    panic_happened: bool,
    actor_registry: TypeRegistry,
    message_registry: TypeRegistry,
    classes: Vec<Option<Class<H, S>>>,
    trait_implementors: Vec<Option<Vec<ShortTypeId>>>,
    message_statistics: Vec<usize>,
    networking: Networking,
    tuning: Tuning,
    world: World,
}

// ---------------------------------------------------------------------------
// Short names of types
// ---------------------------------------------------------------------------
/// The index of the first `::` that starts at or after `from`, or the
/// length of the text where there is none.
pub open spec fn first_colons(s: Seq<char>, from: int) -> int
    decreases s.len() - from,
{
    if from < 0 || from + 2 > s.len() {
        s.len() as int
    } else if s[from] == ':' && s[from + 1] == ':' {
        from
    } else {
        first_colons(s, from + 1)
    }
}

/// Where the last piece of a path starts: behind the last `::`, the path
/// being read from the left.
pub open spec fn last_piece_start(s: Seq<char>, from: int) -> int
    decreases s.len() - from,
{
    let j = first_colons(s, from);
    if from < 0 || j < from || j + 2 > s.len() {
        from
    } else {
        last_piece_start(s, j + 2)
    }
}

/// The text from `from` on without any `>`.
pub open spec fn without_closing(s: Seq<char>, from: int) -> Seq<char>
    decreases s.len() - from,
{
    if from < 0 || from >= s.len() {
        Seq::empty()
    } else if s[from] == '>' {
        without_closing(s, from + 1)
    } else {
        seq![s[from]] + without_closing(s, from + 1)
    }
}

/// The short name of a type: the last piece of its path, without any `>`.
pub open spec fn short_name_text(s: Seq<char>) -> Seq<char> {
    without_closing(s, last_piece_start(s, 0))
}

proof fn lemma_first_colons_bounds(s: Seq<char>, from: int)
    requires
        0 <= from <= s.len(),
    ensures
        from <= first_colons(s, from) <= s.len(),
        first_colons(s, from) < s.len() ==> first_colons(s, from) + 2 <= s.len(),
    decreases s.len() - from,
{
    if from + 2 <= s.len() && !(s[from] == ':' && s[from + 1] == ':') {
        lemma_first_colons_bounds(s, from + 1);
    }
}

fn find_colons(v: &Vec<char>, from: usize) -> (r: usize)
    requires
        from <= v.len(),
    ensures
        r == first_colons(v@, from as int),
        from <= r <= v.len(),
        r < v.len() ==> r + 2 <= v.len(),
{
    proof {
        lemma_first_colons_bounds(v@, from as int);
    }
    let n = v.len();
    let mut i: usize = from;
    while n - i >= 2 && !(v[i] == ':' && v[i + 1] == ':')
        invariant
            n == v.len(),
            from <= i <= n,
            first_colons(v@, from as int) == first_colons(v@, i as int),
        decreases n - i,
    {
        i += 1;
    }
    if n - i >= 2 {
        i
    } else {
        n
    }
}

/// The short name of a type: the last piece of its path, without any `>`.
pub fn short_name(name: &str) -> (r: String)
    ensures
        r@ == short_name_text(name@),
{
    let v = collect_chars(name);
    let n = v.len();
    let mut start: usize = 0;
    loop
        invariant_except_break
            n == v.len(),
            start <= n,
            last_piece_start(v@, 0) == last_piece_start(v@, start as int),
        ensures
            start <= n,
            n == v.len(),
            start == last_piece_start(v@, 0),
        decreases n - start,
    {
        let j = find_colons(&v, start);
        if j >= n {
            break ;
        }
        start = j + 2;
    }
    let mut out = String::new();
    let mut k: usize = start;
    let mut piece_start: usize = start;
    while k < n
        invariant
            n == v.len(),
            v@ == name@,
            start <= piece_start <= k <= n,
            forall|j: int| piece_start <= j < k ==> v@[j] != '>',
            out@ + v@.subrange(piece_start as int, k as int) + without_closing(v@, k as int)
                == without_closing(v@, start as int),
        decreases n - k,
    {
        if v[k] == '>' {
            let ghost before = out@;
            out.append(name.substring_char(piece_start, k));
            assert(out@ + v@.subrange(k + 1, k + 1) + without_closing(v@, k + 1) =~= before
                + v@.subrange(piece_start as int, k as int) + without_closing(v@, k as int));
            piece_start = k + 1;
        } else {
            assert(v@.subrange(piece_start as int, k + 1) =~= v@.subrange(
                piece_start as int,
                k as int,
            ) + seq![v@[k as int]]);
            assert(out@ + v@.subrange(piece_start as int, k + 1) + without_closing(v@, k + 1)
                =~= out@ + v@.subrange(piece_start as int, k as int) + without_closing(
                v@,
                k as int,
            ));
        }
        k += 1;
    }
    let ghost before = out@;
    out.append(name.substring_char(piece_start, n));
    assert(out@ =~= before + v@.subrange(piece_start as int, n as int) + without_closing(
        v@,
        n as int,
    ));
    out
}

// ---------------------------------------------------------------------------
// Telemetry
// ---------------------------------------------------------------------------
/// A list of numbers under names.
pub open spec fn named(list: Seq<(String, usize)>) -> Seq<(Seq<char>, usize)> {
    list.map_values(|e: (String, usize)| (e.0@, e.1))
}

/// The count of each class with an id below `n`, in the order of the ids,
/// under the short name of the class.
pub open spec fn instance_counts<H: Handler, S: Spawner>(
    classes: Seq<Option<Class<H, S>>>,
    n: int,
) -> Seq<(Seq<char>, usize)>
    decreases n,
{
    if n <= 0 {
        Seq::empty()
    } else {
        let before = instance_counts(classes, n - 1);
        match classes[n - 1] {
            Some(class) => before.push(
                (
                    short_name_text(class.v_table.name@),
                    class.instance_store.model().count as usize,
                ),
            ),
            None => before,
        }
    }
}

/// The count of each message type with an id below `n` that has a name and
/// a count above zero, in the order of the ids, under the name of the type.
pub open spec fn message_counts(statistics: Seq<usize>, names: Seq<Seq<char>>, n: int) -> Seq<
    (Seq<char>, usize),
>
    decreases n,
{
    if n <= 1 {
        Seq::empty()
    } else {
        let before = message_counts(statistics, names, n - 1);
        if statistics[n - 1] > 0 && n - 1 <= names.len() {
            before.push((names[n - 2], statistics[n - 1]))
        } else {
            before
        }
    }
}

/// The length of the inbox of each class with an id below `n` that has a
/// name, in the order of the ids, under the name of the class.
pub open spec fn queue_lengths(
    boxes: Seq<Option<Seq<Seq<u8>>>>,
    names: Seq<Seq<char>>,
    n: int,
) -> Seq<(Seq<char>, usize)>
    decreases n,
{
    if n <= 1 {
        Seq::empty()
    } else {
        let before = queue_lengths(boxes, names, n - 1);
        if boxes[n - 1] is Some && n - 1 <= names.len() {
            before.push((names[n - 2], boxes[n - 1]->0.len() as usize))
        } else {
            before
        }
    }
}

// ---------------------------------------------------------------------------
// Sending
// ---------------------------------------------------------------------------
/// After a message was sent to a recipient whose type is a class here, the
/// inbox of that class has one frame more, at its end: the frame reads as
/// the type of the message, the recipient and the bytes of the message. No
/// frame before it and no other inbox has changed.
pub proof fn lemma_sent_message_waits(
    boxes: Seq<Option<Seq<Seq<u8>>>>,
    implementors: Seq<Option<Vec<ShortTypeId>>>,
    recipient: RawID,
    message_type: u16,
    payload: Seq<u8>,
)
    requires
        recipient.type_id@ < boxes.len(),
        boxes[recipient.type_id@ as int] is Some,
    ensures
        ({
            let t = recipient.type_id@ as int;
            let frame = frame_bytes(message_type, recipient@, payload);
            let after = routed(boxes, implementors, t, frame);
            &&& after.len() == boxes.len()
            &&& after[t] matches Some(inbox) && inbox.len() == boxes[t]->0.len() + 1
                && inbox.drop_last() == boxes[t]->0 && inbox.last() == frame
            &&& crate::wire::frame_message_type(frame) == message_type
            &&& crate::wire::frame_recipient(frame) == recipient@
            &&& crate::wire::frame_payload(frame) == payload
            &&& forall|c: int| 0 <= c < boxes.len() && c != t ==> after[c] == boxes[c]
        }),
{
    let t = recipient.type_id@ as int;
    let frame = frame_bytes(message_type, recipient@, payload);
    crate::networking::lemma_routed_to_class(boxes, implementors, t, frame);
    crate::wire::lemma_frame_round_trip(message_type, recipient@, payload);
    assert(boxes[t]->0.push(frame).drop_last() =~= boxes[t]->0);
}

/// The same classes are registered, with the same dispatch tables.
pub open spec fn same_classes<H: Handler, S: Spawner>(
    before: Seq<Option<Class<H, S>>>,
    after: Seq<Option<Class<H, S>>>,
) -> bool {
    &&& after.len() == before.len()
    &&& forall|i: int|
        0 <= i < before.len() ==> match #[trigger] before[i] {
            Some(c) => after[i] matches Some(d) && d.v_table == c.v_table,
            None => after[i] is None,
        }
}

/// Having the same classes carries over from one pair of states to the next.
pub proof fn lemma_same_classes_trans<H: Handler, S: Spawner>(
    a: Seq<Option<Class<H, S>>>,
    b: Seq<Option<Class<H, S>>>,
    c: Seq<Option<Class<H, S>>>,
)
    requires
        same_classes(a, b),
        same_classes(b, c),
    ensures
        same_classes(a, c),
{
    assert forall|i: int| 0 <= i < a.len() implies match #[trigger] a[i] {
        Some(x) => c[i] matches Some(d) && d.v_table == x.v_table,
        None => c[i] is None,
    } by {
        assert(b[i] is Some <==> a[i] is Some);
    }
}

// ---------------------------------------------------------------------------
// Passes over the classes
// ---------------------------------------------------------------------------
/// What a pass over the classes works on: the classes with their instances
/// and inboxes, and the counts of handled messages.
pub struct PassState<H: Handler, S: Spawner> {
    /// The classes by class id.
    pub classes: Seq<Option<Class<H, S>>>,
    /// The number of messages handled so far, by message type.
    pub statistics: Seq<usize>,
}

/// Whether every class but the class `c` has its instances and its dispatch
/// table as before, and an inbox that has only got frames at its end.
pub open spec fn others_kept<H: Handler, S: Spawner>(
    before: Seq<Option<Class<H, S>>>,
    after: Seq<Option<Class<H, S>>>,
    c: int,
) -> bool {
    &&& after.len() == before.len()
    &&& forall|j: int|
        0 <= j < before.len() && j != c ==> match #[trigger] before[j] {
            Some(x) => after[j] matches Some(y) && y.instance_store == x.instance_store
                && y.v_table == x.v_table && grown(x.inbox@, y.inbox@),
            None => after[j] is None,
        }
}

/// What the turn of the class with the id `c` does in a pass. Where there
/// is no such class, nothing. Else the class dispatches every message that
/// waits in its inbox, in order and each without failure; each is counted
/// under its type; and the messages that the handlers have sent are routed,
/// which lets inboxes grow at their ends. What waits in the inbox of the
/// class afterwards has come in during its turn.
pub open spec fn turn_taken<H: Handler, S: Spawner>(
    before: PassState<H, S>,
    after: PassState<H, S>,
    c: int,
    panic_happened: bool,
) -> bool {
    match before.classes[c] {
        None => after == before,
        Some(x) => {
            &&& others_kept(before.classes, after.classes, c)
            &&& after.classes[c] matches Some(y) && y.v_table == x.v_table && dispatched_all(
                x.instance_store.model(),
                y.instance_store.model(),
                x.v_table.message_handlers@,
                x.inbox@,
                panic_happened,
            )
            &&& after.statistics.len() == before.statistics.len()
            &&& forall|t: int|
                0 <= t < MAX_MESSAGE_TYPES ==> #[trigger] after.statistics[t] == counted(
                    before.statistics[t],
                    count_type(x.inbox@, t),
                )
        },
    }
}

/// What the turn of the class with the id `c` does where a dispatch fails:
/// the messages before the one that failed were dispatched without failure
/// and counted, the dispatch of that one ended as `failure` says, and the
/// messages behind it still wait at the front of the inbox.
pub open spec fn turn_failed<H: Handler, S: Spawner>(
    before: PassState<H, S>,
    after: PassState<H, S>,
    c: int,
    panic_happened: bool,
    failure: Failure,
) -> bool {
    let x = before.classes[c]->0;
    let y = after.classes[c]->0;
    &&& before.classes[c] is Some
    &&& after.classes[c] is Some
    &&& others_kept(before.classes, after.classes, c)
    &&& y.v_table == x.v_table
    &&& after.statistics.len() == before.statistics.len()
    &&& failure.dispatched.is_failure()
    &&& exists|handled: int, mid: StoreModel|
        {
            &&& 0 <= handled < x.inbox@.len()
            &&& #[trigger] dispatched_all(
                x.instance_store.model(),
                mid,
                x.v_table.message_handlers@,
                x.inbox@.subrange(0, handled),
                panic_happened,
            )
            &&& failure.message_type@ == frame_message_type(x.inbox@[handled])
            &&& dispatch_result(
                mid,
                y.instance_store.model(),
                entry_for(x.v_table.message_handlers@, failure.message_type@ as int),
                frame_recipient(x.inbox@[handled]),
                panic_happened,
                failure.dispatched,
            )
            &&& grown(x.inbox@.skip(handled + 1), y.inbox@)
            &&& forall|t: int|
                0 <= t < MAX_MESSAGE_TYPES ==> #[trigger] after.statistics[t] == counted(
                    before.statistics[t],
                    count_type(x.inbox@.subrange(0, handled), t),
                )
        }
}

/// Whether `end` comes from `start` by the turns of the classes with the
/// ids below `n`, in the order of the ids.
pub open spec fn turns_taken<H: Handler, S: Spawner>(
    start: PassState<H, S>,
    end: PassState<H, S>,
    n: int,
    panic_happened: bool,
) -> bool
    decreases n,
{
    if n <= 0 {
        end == start
    } else {
        exists|mid: PassState<H, S>, last: int|
            last == n - 1 && turns_taken(start, mid, last, panic_happened) && #[trigger] turn_taken(
                mid,
                end,
                last,
                panic_happened,
            )
    }
}

/// What one pass over the classes does. Without failure, every class has
/// had its turn. A message that could not be routed ended the pass after
/// the turn of the class whose handler had sent it. A dispatch that failed
/// ended the pass in the turn of its class.
pub open spec fn passed<H: Handler, S: Spawner>(
    start: PassState<H, S>,
    end: PassState<H, S>,
    panic_happened: bool,
    failure: Option<SystemFailure>,
) -> bool {
    match failure {
        None => turns_taken(start, end, MAX_RECIPIENT_TYPES as int, panic_happened),
        Some(SystemFailure::Unroutable { .. }) => exists|n: int|
            1 <= n <= MAX_RECIPIENT_TYPES && #[trigger] turns_taken(start, end, n, panic_happened)
                && end.classes[n - 1] is Some,
        Some(SystemFailure::Dispatch { class, failure }) => class < MAX_RECIPIENT_TYPES && exists|
            mid: PassState<H, S>,
        | #[trigger]
            turns_taken(start, mid, class as int, panic_happened) && turn_failed(
                mid,
                end,
                class as int,
                panic_happened,
                failure,
            ),
    }
}

/// Whether `end` comes from `start` by `n` passes over the classes, none of which failed.
pub open spec fn passes_made<H: Handler, S: Spawner>(
    start: PassState<H, S>,
    end: PassState<H, S>,
    n: int,
    panic_happened: bool,
) -> bool
    decreases n,
{
    if n <= 0 {
        end == start
    } else {
        exists|mid: PassState<H, S>|
            passes_made(start, mid, n - 1, panic_happened) && #[trigger] turns_taken(
                mid,
                end,
                MAX_RECIPIENT_TYPES as int,
                panic_happened,
            )
    }
}

/// After the turns of the classes below `n`, the turn of the class `n` makes the turns below `n + 1`.
proof fn lemma_next_turn<H: Handler, S: Spawner>(
    start: PassState<H, S>,
    mid: PassState<H, S>,
    end: PassState<H, S>,
    n: int,
    panic_happened: bool,
)
    requires
        n >= 0,
        turns_taken(start, mid, n, panic_happened),
        turn_taken(mid, end, n, panic_happened),
    ensures
        turns_taken(start, end, n + 1, panic_happened),
{
    assert(turns_taken(start, mid, n, panic_happened) && turn_taken(mid, end, n, panic_happened));
}

/// After `n` passes, one more pass makes `n + 1`.
proof fn lemma_next_pass<H: Handler, S: Spawner>(
    start: PassState<H, S>,
    mid: PassState<H, S>,
    end: PassState<H, S>,
    n: int,
    panic_happened: bool,
)
    requires
        n >= 0,
        passes_made(start, mid, n, panic_happened),
        turns_taken(mid, end, MAX_RECIPIENT_TYPES as int, panic_happened),
    ensures
        passes_made(start, end, n + 1, panic_happened),
{
    assert(passes_made(start, mid, n, panic_happened) && turns_taken(
        mid,
        end,
        MAX_RECIPIENT_TYPES as int,
        panic_happened,
    ));
}

/// A message that was sent lets inboxes grow at their ends, if at all.
proof fn lemma_sent_grows<H: Handler, S: Spawner>(
    before: Seq<Option<Class<H, S>>>,
    after: Seq<Option<Class<H, S>>>,
    implementors: Seq<Option<Vec<ShortTypeId>>>,
    type_id: int,
    frame: Seq<u8>,
    here: bool,
)
    requires
        same_but_inboxes(before, after),
        here ==> routable(inboxes(before), implementors, type_id) && inboxes(after) == routed(
            inboxes(before),
            implementors,
            type_id,
            frame,
        ),
        !here ==> inboxes(after) == inboxes(before),
    ensures
        inboxes_grown(before, after),
{
    let boxes = inboxes(before);
    if here {
        lemma_delivered_grows(boxes, targets(boxes, implementors, type_id)->0, frame);
    }
    assert forall|i: int| 0 <= i < before.len() implies match #[trigger] before[i] {
        Some(c) => after[i] matches Some(d) && d.instance_store == c.instance_store && d.v_table
            == c.v_table && grown(c.inbox@, d.inbox@),
        None => after[i] is None,
    } by {
        if before[i] is Some {
            let c = before[i]->0;
            let d = after[i]->0;
            assert(boxes[i] == Some(c.inbox@));
            assert(inboxes(after)[i] == Some(d.inbox@));
            if !here {
                assert(d.inbox@.subrange(0, c.inbox@.len() as int) =~= c.inbox@);
            }
        }
    }
}

/// Why a pass over the inboxes ended early.
pub enum SystemFailure {
    /// The dispatch of a message in the class with this id failed.
    Dispatch { class: usize, failure: Failure },
    /// A handler sent a message that cannot be routed: its recipient is on
    /// no known machine, is neither a class nor a trait with implementors
    /// here, or the message is too large for a batch.
    Unroutable { recipient: RawID, message_type: ShortTypeId },
}

/// What one pass, or one call of `process_all_messages`, did.
pub struct ProcessReport {
    /// The recipients that were not found: they are dead.
    pub not_found: Vec<RawID>,
    /// What ended the processing early, if something did. The system is
    /// then in the panicked state.
    pub failure: Option<SystemFailure>,
}

/// The failed dispatch that ended the turn of the class with the id `c`, if one did.
pub open spec fn failed_in(failure: Option<SystemFailure>, c: int) -> Option<Failure> {
    match failure {
        Some(SystemFailure::Dispatch { class, failure }) => if class == c {
            Some(failure)
        } else {
            None
        },
        _ => None,
    }
}

/// The failure of the pass with the number `n`, where `passes` passes were
/// begun and the processing ended as `failure` says: only the last pass can
/// have failed.
pub open spec fn failed_pass(failure: Option<SystemFailure>, passes: nat, n: int) -> Option<
    SystemFailure,
> {
    if n + 1 == passes {
        failure
    } else {
        None
    }
}

/// What becomes of the world between the turns of two classes. `left` is
/// the world as the handlers of a class left it, `next` the world that the
/// next class is handed: it is made to fit the machine again, with the
/// allocators of the classes as they were left, and the messages that were
/// sent are taken out of it for routing.
pub open spec fn handed_on(left: World, next: World, machine: MachineID) -> bool {
    &&& next.machine_id() == machine
    &&& next.allocators().len() == MAX_RECIPIENT_TYPES
    &&& forall|i: int|
        0 <= i < MAX_RECIPIENT_TYPES ==> #[trigger] next.allocators()[i] == (if i
            < left.allocators().len() {
            left.allocators()[i]
        } else {
            None
        })
    &&& next.outbox().len() == 0
    &&& next.spec_panic_happened() == left.spec_panic_happened()
}

/// Whether a world differs from another at most in the note of a panic, which is as given.
pub open spec fn noted(before: World, after: World, panic_happened: bool) -> bool {
    &&& after.spec_panic_happened() == panic_happened
    &&& after.outbox() == before.outbox()
    &&& after.allocators() == before.allocators()
    &&& after.machine_id() == before.machine_id()
}

/// The inboxes after the messages in `sent` were routed in order on the
/// machine with the given id: the frame of each message that goes to this
/// machine was routed by the type of its recipient, and a message that
/// goes to another machine alone left the inboxes as they were.
pub open spec fn routed_all(
    boxes: Seq<Option<Seq<Seq<u8>>>>,
    implementors: Seq<Option<Vec<ShortTypeId>>>,
    machine: MachineID,
    sent: Seq<Envelope>,
) -> Seq<Option<Seq<Seq<u8>>>>
    decreases sent.len(),
{
    if sent.len() == 0 {
        boxes
    } else {
        let rest = routed_all(boxes, implementors, machine, sent.drop_last());
        let e = sent.last();
        if e.recipient.machine == machine || e.recipient.spec_is_global_broadcast() {
            routed(
                rest,
                implementors,
                e.recipient.type_id@ as int,
                frame_bytes(e.message_type@, e.recipient@, e.payload@),
            )
        } else {
            rest
        }
    }
}

/// The batches that wait for the machine `i` after the messages in `sent`
/// were enqueued in order on the machine with the id `machine`, which is
/// not alone in its network: the frame of each message that goes out, and
/// to the machine `i`, was enqueued; `size` is the size above which a batch
/// takes no further frame.
pub open spec fn enqueued_all(
    batches: Seq<Seq<u8>>,
    size: int,
    machine: MachineID,
    i: int,
    sent: Seq<Envelope>,
) -> Seq<Seq<u8>>
    decreases sent.len(),
{
    if sent.len() == 0 {
        batches
    } else {
        let rest = enqueued_all(batches, size, machine, i, sent.drop_last());
        let e = sent.last();
        if (e.recipient.machine != machine || e.recipient.spec_is_global_broadcast())
            && Networking::is_target(e.recipient, i) {
            enqueued(rest, size, frame_bytes(e.message_type@, e.recipient@, e.payload@))
        } else {
            rest
        }
    }
}

/// What the routing of the messages in `sent` has done to the connections
/// to the other machines. A machine that is alone has its connections as
/// they were. Else every connection is still there, and the batches that
/// wait on it are those after the messages were enqueued in order.
pub open spec fn batches_routed(before: Networking, after: Networking, sent: Seq<Envelope>) -> bool {
    &&& after.connections().len() == before.connections().len()
    &&& before.network().len() == 1 ==> after.connections() == before.connections()
    &&& forall|i: int| #[trigger]
        before.is_connected(i) && before.network().len() != 1 ==> after.is_connected(i)
            && after.connections()[i]->0.batches() == enqueued_all(
            before.connections()[i]->0.batches(),
            before.batch_message_bytes() as int,
            before.machine_id(),
            i,
            sent,
        )
}

/// The message that could not be routed after the turn of the class with
/// the id `c`, where `turns` turns were taken and the pass ended as
/// `failure` says: only after the last turn can a message have been
/// unroutable.
pub open spec fn unroutable_after(failure: Option<SystemFailure>, turns: nat, c: int) -> Option<
    (RawID, ShortTypeId),
> {
    match failure {
        Some(SystemFailure::Unroutable { recipient, message_type }) => if c + 1 == turns {
            Some((recipient, message_type))
        } else {
            None
        },
        _ => None,
    }
}

/// The ids of all the sequences, one sequence after the other.
pub open spec fn joined(parts: Seq<Seq<RawIDView>>) -> Seq<RawIDView>
    decreases parts.len(),
{
    if parts.len() == 0 {
        Seq::empty()
    } else {
        joined(parts.drop_last()) + parts.last()
    }
}

/// What the turn of the class with the id `c` has to do with what the
/// class has registered. `handed` is the world at the start of the turn,
/// `left` the world as the handlers and spawners of the class left it, and
/// `next` the world at the end of the turn. Where there is no such class,
/// the world is as it was. Else the class made a pass over its inbox as
/// `messages_ran` says, and the world was then handed on. The recipients
/// that the turn did not find are `not_found`.
///
/// The messages that the handlers and spawners of the class sent wait in
/// the world that they left. They were routed in order, into the inboxes as
/// the pass of the class left them and onto the connections of the
/// networking `net0`, which gave the networking `net1`: all of them, unless
/// a dispatch had failed or one could not be routed; `unroutable` tells the
/// recipient and the type of that one, before which the routing ended.
pub open spec fn turn_ran<H: Handler, S: Spawner>(
    before: PassState<H, S>,
    after: PassState<H, S>,
    c: int,
    handed: World,
    left: World,
    next: World,
    net0: Networking,
    net1: Networking,
    panic_happened: bool,
    machine: MachineID,
    implementors: Seq<Option<Vec<ShortTypeId>>>,
    failed: Option<Failure>,
    unroutable: Option<(RawID, ShortTypeId)>,
    not_found: Seq<RawIDView>,
) -> bool {
    match before.classes[c] {
        None => left == handed && next == handed && net1 == net0 && not_found == Seq::<
            RawIDView,
        >::empty(),
        Some(x) => {
            &&& after.classes[c] is Some
            &&& handed_on(left, next, machine)
            &&& exists|rest: Seq<Seq<u8>>, routed: int|
                {
                    &&& #[trigger] turn_routed(
                        inboxes(before.classes).update(c, Some(rest)),
                        inboxes(after.classes),
                        implementors,
                        machine,
                        left.outbox(),
                        routed,
                    )
                    &&& messages_ran(
                        x.v_table.message_handlers@,
                        x.inbox@,
                        x.instance_store.model(),
                        after.classes[c]->0.instance_store.model(),
                        handed,
                        left,
                        panic_happened,
                        failed,
                        not_found,
                        rest,
                    )
                    &&& batches_routed(net0, net1, left.outbox().take(routed))
                    &&& failed is None && unroutable is None ==> routed == left.outbox().len()
                    &&& unroutable matches Some(u) ==> routed < left.outbox().len() && u.0
                        == left.outbox()[routed].recipient && u.1
                        == left.outbox()[routed].message_type
                }
        },
    }
}

/// Whether the first `routed` of the messages in `sent` were routed in
/// order, from the inboxes `boxes` to the inboxes `after`.
pub open spec fn turn_routed(
    boxes: Seq<Option<Seq<Seq<u8>>>>,
    after: Seq<Option<Seq<Seq<u8>>>>,
    implementors: Seq<Option<Vec<ShortTypeId>>>,
    machine: MachineID,
    sent: Seq<Envelope>,
    routed: int,
) -> bool {
    &&& 0 <= routed <= sent.len()
    &&& after == routed_all(boxes, implementors, machine, sent.take(routed))
}

/// What the turn of the class with the id `c` did: it found the classes as
/// `states[c]` and the world `handed[c]`, and left the classes as
/// `states[c + 1]` and the world `handed[c + 1]`; `left[c]` is the world as
/// the handlers and spawners of the class left it, `found[c]` are the
/// recipients that were not found, and the networking went from `nets[c]`
/// to `nets[c + 1]`. A turn can have failed only if it is the
/// last of those in `left`.
pub open spec fn turn_step<H: Handler, S: Spawner>(
    states: Seq<PassState<H, S>>,
    handed: Seq<World>,
    left: Seq<World>,
    found: Seq<Seq<RawIDView>>,
    nets: Seq<Networking>,
    c: int,
    panic_happened: bool,
    machine: MachineID,
    implementors: Seq<Option<Vec<ShortTypeId>>>,
    failure: Option<SystemFailure>,
) -> bool {
    &&& failed_in(failure, c) is None ==> turn_taken(states[c], states[c + 1], c, panic_happened)
    &&& failed_in(failure, c) matches Some(f) ==> c == left.len() - 1 && turn_failed(
        states[c],
        states[c + 1],
        c,
        panic_happened,
        f,
    )
    &&& turn_ran(
        states[c],
        states[c + 1],
        c,
        handed[c],
        left[c],
        handed[c + 1],
        nets[c],
        nets[c + 1],
        panic_happened,
        machine,
        implementors,
        failed_in(failure, c),
        unroutable_after(failure, left.len(), c),
        found[c],
    )
}

/// Whether the classes with the first ids had their turns in order, as
/// many as there are worlds in `left`, each as `turn_step` says.
pub open spec fn turns_done<H: Handler, S: Spawner>(
    states: Seq<PassState<H, S>>,
    handed: Seq<World>,
    left: Seq<World>,
    found: Seq<Seq<RawIDView>>,
    nets: Seq<Networking>,
    panic_happened: bool,
    machine: MachineID,
    implementors: Seq<Option<Vec<ShortTypeId>>>,
    failure: Option<SystemFailure>,
) -> bool {
    &&& left.len() <= MAX_RECIPIENT_TYPES
    &&& states.len() == left.len() + 1
    &&& handed.len() == left.len() + 1
    &&& found.len() == left.len()
    &&& nets.len() == left.len() + 1
    &&& forall|c: int|
        0 <= c < left.len() ==> #[trigger] turn_step(
            states,
            handed,
            left,
            found,
            nets,
            c,
            panic_happened,
            machine,
            implementors,
            failure,
        )
}

/// What one pass over the classes has to do with what the classes have
/// registered. The classes had their turns in the order of their ids, from
/// the classes as `start` and the world `w0` to the classes as `end` and the
/// world `w1`: all of them where nothing failed, and else those up to the
/// class in or after whose turn the failure happened. The recipients that
/// were not found are `not_found`, in the order of the turns, and the
/// networking went from `net0` to `net1`.
pub open spec fn pass_ran<H: Handler, S: Spawner>(
    start: PassState<H, S>,
    end: PassState<H, S>,
    w0: World,
    w1: World,
    net0: Networking,
    net1: Networking,
    panic_happened: bool,
    machine: MachineID,
    implementors: Seq<Option<Vec<ShortTypeId>>>,
    failure: Option<SystemFailure>,
    not_found: Seq<RawIDView>,
) -> bool {
    exists|
        states: Seq<PassState<H, S>>,
        handed: Seq<World>,
        left: Seq<World>,
        found: Seq<Seq<RawIDView>>,
        nets: Seq<Networking>,
    |
        {
            &&& #[trigger] turns_done(
                states,
                handed,
                left,
                found,
                nets,
                panic_happened,
                machine,
                implementors,
                failure,
            )
            &&& not_found == joined(found)
            &&& states[0] == start
            &&& handed[0] == w0
            &&& nets[0] == net0
            &&& states[left.len() as int] == end
            &&& handed[left.len() as int] == w1
            &&& nets[left.len() as int] == net1
            &&& failure is None ==> left.len() == MAX_RECIPIENT_TYPES
            &&& failure is Some ==> left.len() >= 1
            &&& failure matches Some(SystemFailure::Dispatch { class, failure }) ==> left.len()
                == class + 1
        }
}

/// What the pass with the number `n` did: it found the classes as
/// `passes[n]` and the world `begun[n]`, and left the classes as
/// `passes[n + 1]` and the world `begun[n + 1]`; `found[n]` are the
/// recipients that were not found, and the networking went from `nets[n]`
/// to `nets[n + 1]`. A pass can have failed only if it is the
/// last.
pub open spec fn pass_step<H: Handler, S: Spawner>(
    passes: Seq<PassState<H, S>>,
    begun: Seq<World>,
    found: Seq<Seq<RawIDView>>,
    nets: Seq<Networking>,
    n: int,
    panic_happened: bool,
    machine: MachineID,
    implementors: Seq<Option<Vec<ShortTypeId>>>,
    failure: Option<SystemFailure>,
) -> bool {
    &&& passed(
        passes[n],
        passes[n + 1],
        panic_happened,
        failed_pass(failure, (passes.len() - 1) as nat, n),
    )
    &&& pass_ran(
        passes[n],
        passes[n + 1],
        begun[n],
        begun[n + 1],
        nets[n],
        nets[n + 1],
        panic_happened,
        machine,
        implementors,
        failed_pass(failure, (passes.len() - 1) as nat, n),
        found[n],
    )
}

/// Whether passes were made in order, one less than there are `passes`,
/// each as `pass_step` says.
pub open spec fn passes_done<H: Handler, S: Spawner>(
    passes: Seq<PassState<H, S>>,
    begun: Seq<World>,
    found: Seq<Seq<RawIDView>>,
    nets: Seq<Networking>,
    panic_happened: bool,
    machine: MachineID,
    implementors: Seq<Option<Vec<ShortTypeId>>>,
    failure: Option<SystemFailure>,
) -> bool {
    &&& 1 <= passes.len() <= MAX_CYCLES + 1
    &&& begun.len() == passes.len()
    &&& found.len() == passes.len() - 1
    &&& nets.len() == passes.len()
    &&& forall|n: int|
        0 <= n < passes.len() - 1 ==> #[trigger] pass_step(
            passes,
            begun,
            found,
            nets,
            n,
            panic_happened,
            machine,
            implementors,
            failure,
        )
}

/// What the processing of all messages has to do with what the classes
/// have registered. Passes were made in order, from the classes as `start`
/// to the classes as `end`: 1000 where nothing failed, and else those up to
/// the one that failed. The first pass began with the world `w0`, in which
/// it was noted whether a panic had happened; the world `w1` at the end is
/// the world that the last pass left, in which a failure is noted as a panic.
/// The recipients that were not found are `not_found`, in the order of the
/// passes, and the networking went from `net0` to `net1`.
pub open spec fn passes_ran<H: Handler, S: Spawner>(
    start: PassState<H, S>,
    end: PassState<H, S>,
    w0: World,
    w1: World,
    net0: Networking,
    net1: Networking,
    panic_happened: bool,
    machine: MachineID,
    implementors: Seq<Option<Vec<ShortTypeId>>>,
    failure: Option<SystemFailure>,
    not_found: Seq<RawIDView>,
) -> bool {
    exists|
        passes: Seq<PassState<H, S>>,
        begun: Seq<World>,
        found: Seq<Seq<RawIDView>>,
        nets: Seq<Networking>,
    |
        {
            &&& #[trigger] passes_done(
                passes,
                begun,
                found,
                nets,
                panic_happened,
                machine,
                implementors,
                failure,
            )
            &&& not_found == joined(found)
            &&& passes[0] == start
            &&& passes[passes.len() - 1] == end
            &&& nets[0] == net0
            &&& nets[nets.len() - 1] == net1
            &&& noted(w0, begun[0], panic_happened)
            &&& failure is None ==> w1 == begun[begun.len() - 1]
            &&& failure is Some ==> noted(begun[begun.len() - 1], w1, true)
            &&& failure is None ==> passes.len() == MAX_CYCLES + 1
            &&& failure is Some ==> passes.len() >= 2
        }
}

impl<H: Handler, S: Spawner> ActorSystem<H, S> {
    /// Whether a handler has panicked. From then on only critical handlers run.
    pub closed spec fn spec_panic_happened(&self) -> bool {
        self.panic_happened
    }

    /// The classes by class id.
    pub closed spec fn classes(&self) -> Seq<Option<Class<H, S>>> {
        self.classes@
    }

    /// The implementors of each trait, by the trait's id.
    pub closed spec fn implementors(&self) -> Seq<Option<Vec<ShortTypeId>>> {
        self.trait_implementors@
    }

    /// The number of messages handled so far, by message type.
    pub closed spec fn statistics(&self) -> Seq<usize> {
        self.message_statistics@
    }

    /// The networking of the system.
    pub closed spec fn networking(&self) -> Networking {
        self.networking
    }

    /// The registry of actor classes and actor traits.
    pub closed spec fn actor_registry(&self) -> TypeRegistry {
        self.actor_registry
    }

    /// The registry of message types.
    pub closed spec fn message_registry(&self) -> TypeRegistry {
        self.message_registry
    }

    /// What the handlers see of the system.
    pub closed spec fn spec_world(&self) -> World {
        self.world
    }

    /// What a pass over the classes works on.
    pub open spec fn pass_state(&self) -> PassState<H, S> {
        PassState { classes: self.classes(), statistics: self.statistics() }
    }

    /// The inbox of each class, by class id.
    pub open spec fn inboxes(&self) -> Seq<Option<Seq<Seq<u8>>>> {
        inboxes(self.classes())
    }

    /// The invariant of the system: there is room for 64 classes and traits
    /// and 256 message types, every part is well formed, and the world that
    /// the handlers see is that of this machine, with room for an id
    /// allocator for each class.
    pub open spec fn wf(&self) -> bool {
        &&& self.spec_world().allocators().len() == MAX_RECIPIENT_TYPES
        &&& self.spec_world().machine_id() == self.networking().machine_id()
        &&& self.classes().len() == MAX_RECIPIENT_TYPES
        &&& self.implementors().len() == MAX_RECIPIENT_TYPES
        &&& self.statistics().len() == MAX_MESSAGE_TYPES
        &&& classes_wf(self.classes())
        &&& self.actor_registry().wf()
        &&& self.actor_registry().limit() == MAX_RECIPIENT_TYPES
        &&& self.message_registry().wf()
        &&& self.message_registry().limit() == MAX_MESSAGE_TYPES
        &&& self.networking().wf()
    }

    /// An actor system without classes.
    pub fn new(networking: Networking, tuning: Tuning) -> (system: ActorSystem<H, S>)
        requires
            networking.wf(),
        ensures
            system.wf(),
            !system.spec_panic_happened(),
            system.networking() == networking,
            forall|i: int| 0 <= i < MAX_RECIPIENT_TYPES ==> system.classes()[i] is None,
            forall|i: int| 0 <= i < MAX_RECIPIENT_TYPES ==> system.implementors()[i] is None,
            forall|i: int| 0 <= i < MAX_MESSAGE_TYPES ==> system.statistics()[i] == 0,
            system.actor_registry().names().len() == 0,
            system.message_registry().names().len() == 0,
            system.spec_world().allocators().len() == MAX_RECIPIENT_TYPES,
            system.spec_world().outbox().len() == 0,
            system.spec_world().machine_id() == networking.machine_id(),
    {
        let mut classes: Vec<Option<Class<H, S>>> = Vec::new();
        let mut trait_implementors: Vec<Option<Vec<ShortTypeId>>> = Vec::new();
        let mut i: usize = 0;
        while i < MAX_RECIPIENT_TYPES
            invariant
                i <= MAX_RECIPIENT_TYPES,
                classes@.len() == i,
                trait_implementors@.len() == i,
                forall|k: int| 0 <= k < i ==> classes@[k] is None,
                forall|k: int| 0 <= k < i ==> trait_implementors@[k] is None,
            decreases MAX_RECIPIENT_TYPES - i,
        {
            classes.push(None);
            trait_implementors.push(None);
            i += 1;
        }
        let mut message_statistics: Vec<usize> = Vec::new();
        let mut j: usize = 0;
        while j < MAX_MESSAGE_TYPES
            invariant
                j <= MAX_MESSAGE_TYPES,
                message_statistics@.len() == j,
                forall|k: int| 0 <= k < j ==> message_statistics@[k] == 0,
            decreases MAX_MESSAGE_TYPES - j,
        {
            message_statistics.push(0);
            j += 1;
        }
        let world = World::new(networking.local_machine_id(), MAX_RECIPIENT_TYPES);
        ActorSystem {
            panic_happened: false,
            actor_registry: TypeRegistry::new(MAX_RECIPIENT_TYPES),
            message_registry: TypeRegistry::new(MAX_MESSAGE_TYPES),
            classes,
            trait_implementors,
            message_statistics,
            networking,
            tuning,
            world,
        }
    }

    /// Whether a handler has panicked. From then on only critical handlers run.
    #[verifier::when_used_as_spec(spec_panic_happened)]
    pub fn panic_happened(&self) -> (b: bool)
        ensures
            b == self.spec_panic_happened(),
    {
        self.panic_happened
    }

    /// What the handlers see of the system.
    pub fn world(&self) -> (w: &World)
        ensures
            *w == self.spec_world(),
    {
        &self.world
    }

    /// The id of the first instance of a class on this machine, whether or not it exists.
    pub fn local_first(&self, type_id: ShortTypeId) -> (id: RawID)
        ensures
            id == (RawID {
                type_id,
                instance_id: 0,
                machine: self.networking().machine_id(),
                version: 0,
            }),
    {
        RawID::new(type_id, 0, self.networking.local_machine_id(), 0)
    }

    /// Whether a name can get an id in the registry of actors: it has one, or there is room.
    pub open spec fn has_room_for(&self, name: Seq<char>) -> bool {
        self.actor_registry().knows(name) || !self.actor_registry().is_full()
    }

    /// Whether a class can be registered under a name: the name can get an
    /// id, and no class is registered under it.
    pub open spec fn can_register(&self, name: Seq<char>) -> bool {
        &&& self.has_room_for(name)
        &&& self.actor_registry().knows(name) ==> self.classes()[self.actor_registry().id_of(
            name,
        )] is None
    }

    /// Whether a name can get an id in the registry of actors.
    pub fn may_name_actor(&self, name: &str) -> (b: bool)
        requires
            self.wf(),
        ensures
            b == self.has_room_for(name@),
    {
        match self.actor_registry.get(name) {
            Some(_) => true,
            None => self.actor_registry.len() + 1 < MAX_RECIPIENT_TYPES,
        }
    }

    /// Whether a name can get an id in the registry of messages: it has one, or there is room.
    pub fn may_name_message(&self, name: &str) -> (b: bool)
        requires
            self.wf(),
        ensures
            b == (self.message_registry().knows(name@) || !self.message_registry().is_full()),
    {
        match self.message_registry.get(name) {
            Some(_) => true,
            None => self.message_registry.len() + 1 < MAX_MESSAGE_TYPES,
        }
    }

    /// Whether a class can be registered under a name.
    pub fn may_register(&self, name: &str) -> (b: bool)
        requires
            self.wf(),
        ensures
            b == self.can_register(name@),
    {
        match self.actor_registry.get(name) {
            Some(id) => self.classes[id.as_usize()].is_none(),
            None => self.actor_registry.len() + 1 < MAX_RECIPIENT_TYPES,
        }
    }

    /// Registers a new actor class under a name, which gets a type id
    /// unless it has one. The class starts without instances, messages and
    /// handlers, and with an id allocator that has handed out no id. A
    /// class is registered once.
    pub fn register(&mut self, name: &str, typical_size: usize) -> (id: ShortTypeId)
        requires
            old(self).wf(),
            old(self).can_register(name@),
            typical_size >= 1,
        ensures
            final(self).wf(),
            final(self).actor_registry().knows(name@),
            id@ == final(self).actor_registry().id_of(name@),
            id@ < MAX_RECIPIENT_TYPES,
            final(self).actor_registry().names() == if old(self).actor_registry().knows(name@) {
                old(self).actor_registry().names()
            } else {
                old(self).actor_registry().names().push(name@)
            },
            final(self).classes().len() == old(self).classes().len(),
            forall|i: int|
                0 <= i < MAX_RECIPIENT_TYPES && i != id@ ==> final(self).classes()[i] == old(self).classes()[i],
            final(self).classes()[id@ as int] matches Some(class) && class.inbox@.len() == 0
                && class.instance_store.model().count == 0 && class.instance_store.model().base
                == typical_size && class.v_table.name@ == name@ && (forall|t: int|
                0 <= t < MAX_MESSAGE_TYPES ==> #[trigger] class.v_table.message_handlers@[t] is Unassigned),
            final(self).implementors() == old(self).implementors(),
            final(self).statistics() == old(self).statistics(),
            final(self).networking() == old(self).networking(),
            final(self).message_registry() == old(self).message_registry(),
            final(self).spec_panic_happened() == old(self).spec_panic_happened(),
            final(self).classes()[id@ as int]->0.instance_store.model().entries.len() == 0,
            final(self).classes()[id@ as int]->0.instance_store.model().arena.len() == 0,
            final(self).spec_world().knows_class(id),
            final(self).spec_world().allocators()[id@ as int]->0.free_ids().len() == 0,
            final(self).spec_world().allocators()[id@ as int]->0.next_id() == 0,
            forall|i: int|
                0 <= i < MAX_RECIPIENT_TYPES && i != id@ ==> final(self).spec_world().allocators()[i]
                    == old(self).spec_world().allocators()[i],
            final(self).spec_world().outbox() == old(self).spec_world().outbox(),
    {
        let id = self.actor_registry.get_or_register(name).unwrap();
        let v_table = ActorVTable::new_for_actor_type(String::from_str(name), typical_size);
        let class = Class::new(v_table, &self.tuning);
        self.classes[id.as_usize()] = Some(class);
        self.world.install_class(id);
        id
    }

    /// Gives a name a type id without a class behind it. Systems that do
    /// not all have the same classes use this to agree on their type ids.
    pub fn register_dummy(&mut self, name: &str) -> (id: ShortTypeId)
        requires
            old(self).wf(),
            old(self).has_room_for(name@),
        ensures
            final(self).wf(),
            id@ == final(self).actor_registry().id_of(name@),
            final(self).actor_registry().knows(name@),
            final(self).actor_registry().names() == if old(self).actor_registry().knows(name@) {
                old(self).actor_registry().names()
            } else {
                old(self).actor_registry().names().push(name@)
            },
            final(self).classes() == old(self).classes(),
            final(self).implementors() == old(self).implementors(),
            final(self).statistics() == old(self).statistics(),
            final(self).networking() == old(self).networking(),
            final(self).message_registry() == old(self).message_registry(),
            final(self).spec_world() == old(self).spec_world(),
            final(self).spec_panic_happened() == old(self).spec_panic_happened(),
    {
        self.actor_registry.get_or_register(name).unwrap()
    }

    /// Registers an actor trait under a name. A trait has no instances of
    /// its own: a message to it goes to its implementors.
    pub fn register_trait(&mut self, name: &str) -> (id: ShortTypeId)
        requires
            old(self).wf(),
            old(self).has_room_for(name@),
        ensures
            final(self).wf(),
            id@ == final(self).actor_registry().id_of(name@),
            id@ < MAX_RECIPIENT_TYPES,
            final(self).actor_registry().knows(name@),
            final(self).actor_registry().names() == if old(self).actor_registry().knows(name@) {
                old(self).actor_registry().names()
            } else {
                old(self).actor_registry().names().push(name@)
            },
            final(self).implementors().len() == old(self).implementors().len(),
            forall|i: int|
                0 <= i < MAX_RECIPIENT_TYPES && i != id@ ==> final(self).implementors()[i] == old(self).implementors()[i],
            match old(self).implementors()[id@ as int] {
                Some(list) => final(self).implementors()[id@ as int] == Some(list),
                None => final(self).implementors()[id@ as int] matches Some(list) && list@.len()
                    == 0,
            },
            final(self).classes() == old(self).classes(),
            final(self).statistics() == old(self).statistics(),
            final(self).networking() == old(self).networking(),
            final(self).message_registry() == old(self).message_registry(),
            final(self).spec_world() == old(self).spec_world(),
            final(self).spec_panic_happened() == old(self).spec_panic_happened(),
    {
        let id = self.actor_registry.get_or_register(name).unwrap();
        if self.trait_implementors[id.as_usize()].is_none() {
            self.trait_implementors[id.as_usize()] = Some(Vec::new());
        } else {
            assert(self.implementors() =~= old(self).implementors());
        }
        id
    }

    /// Gives a message type an id, unless it has one.
    pub fn register_trait_message(&mut self, name: &str) -> (id: ShortTypeId)
        requires
            old(self).wf(),
            old(self).message_registry().knows(name@) || !old(self).message_registry().is_full(),
        ensures
            final(self).wf(),
            id@ == final(self).message_registry().id_of(name@),
            id@ < MAX_MESSAGE_TYPES,
            final(self).message_registry().knows(name@),
            final(self).message_registry().names() == if old(self).message_registry().knows(
                name@,
            ) {
                old(self).message_registry().names()
            } else {
                old(self).message_registry().names().push(name@)
            },
            final(self).classes() == old(self).classes(),
            final(self).implementors() == old(self).implementors(),
            final(self).statistics() == old(self).statistics(),
            final(self).networking() == old(self).networking(),
            final(self).actor_registry() == old(self).actor_registry(),
            final(self).spec_world() == old(self).spec_world(),
            final(self).spec_panic_happened() == old(self).spec_panic_happened(),
    {
        self.message_registry.get_or_register(name).unwrap()
    }

    /// Makes a registered actor class an implementor of an actor trait: it
    /// gets the messages that are sent to the trait.
    pub fn register_implementor(&mut self, actor_name: &str, trait_name: &str)
        requires
            old(self).wf(),
            old(self).actor_registry().knows(actor_name@),
            old(self).has_room_for(trait_name@),
        ensures
            final(self).wf(),
            final(self).actor_registry().knows(trait_name@),
            final(self).actor_registry().names() == if old(self).actor_registry().knows(
                trait_name@,
            ) {
                old(self).actor_registry().names()
            } else {
                old(self).actor_registry().names().push(trait_name@)
            },
            final(self).implementors().len() == old(self).implementors().len(),
            ({
                let trait_id = final(self).actor_registry().id_of(trait_name@);
                let actor_id = old(self).actor_registry().id_of(actor_name@);
                &&& 0 < trait_id < MAX_RECIPIENT_TYPES
                &&& forall|i: int|
                    0 <= i < MAX_RECIPIENT_TYPES && i != trait_id ==> final(self).implementors()[i]
                        == old(self).implementors()[i]
                &&& final(self).implementors()[trait_id] matches Some(list) && list@.len() > 0
                    && list@.last()@ == actor_id && list@.drop_last() == (match old(self).implementors()[trait_id] {
                    Some(before) => before@,
                    None => Seq::empty(),
                })
            }),
            final(self).classes() == old(self).classes(),
            final(self).statistics() == old(self).statistics(),
            final(self).networking() == old(self).networking(),
            final(self).message_registry() == old(self).message_registry(),
            final(self).spec_world() == old(self).spec_world(),
            final(self).spec_panic_happened() == old(self).spec_panic_happened(),
    {
        let trait_id = self.actor_registry.get_or_register(trait_name).unwrap();
        proof {
            let names = old(self).actor_registry().names();
            assert(names.contains(actor_name@));
            let i = choose|i: int| 0 <= i < names.len() && names[i] == actor_name@;
            assert(self.actor_registry().names()[i] == actor_name@);
        }
        let actor_id = self.actor_registry.get(actor_name).unwrap();
        let mut slot: Option<Vec<ShortTypeId>> = None;
        core::mem::swap(&mut slot, &mut self.trait_implementors[trait_id.as_usize()]);
        let mut list = match slot {
            Some(list) => list,
            None => Vec::new(),
        };
        let ghost before = list@;
        list.push(actor_id);
        assert(list@.drop_last() =~= before);
        self.trait_implementors[trait_id.as_usize()] = Some(list);
        proof {
            if !old(self).actor_registry().knows(trait_name@) {
                let names = old(self).actor_registry().names();
                let i = names.index_of(actor_name@);
                assert(names.contains(actor_name@));
                assert(names.push(trait_name@)[i] == actor_name@);
                assert(actor_name@ != trait_name@);
            }
        }
    }

    /// Whether a class is registered under a name.
    pub open spec fn has_class(&self, name: Seq<char>) -> bool {
        self.actor_registry().knows(name) && self.classes()[self.actor_registry().id_of(
            name,
        )] is Some
    }

    /// Whether a class is registered under a name.
    pub fn is_registered(&self, name: &str) -> (b: bool)
        requires
            self.wf(),
        ensures
            b == self.has_class(name@),
    {
        match self.actor_registry.get(name) {
            Some(id) => self.classes[id.as_usize()].is_some(),
            None => false,
        }
    }

    /// Registers the handler of a registered class for the messages of a
    /// type, which gets a message id unless it has one.
    pub fn add_handler(&mut self, actor_name: &str, message_name: &str, handler: H, critical: bool)
        requires
            old(self).wf(),
            old(self).has_class(actor_name@),
            old(self).message_registry().knows(message_name@) || !old(self).message_registry().is_full(),
        ensures
            final(self).wf(),
            final(self).message_registry().knows(message_name@),
            final(self).message_registry().names() == if old(self).message_registry().knows(
                message_name@,
            ) {
                old(self).message_registry().names()
            } else {
                old(self).message_registry().names().push(message_name@)
            },
            final(self).classes().len() == old(self).classes().len(),
            ({
                let actor_id = old(self).actor_registry().id_of(actor_name@);
                let message_id = final(self).message_registry().id_of(message_name@);
                let before = old(self).classes()[actor_id]->0;
                &&& 0 < message_id < MAX_MESSAGE_TYPES
                &&& forall|i: int|
                    0 <= i < MAX_RECIPIENT_TYPES && i != actor_id ==> final(self).classes()[i]
                        == old(self).classes()[i]
                &&& final(self).classes()[actor_id] matches Some(class) && class.instance_store
                    == before.instance_store && class.inbox == before.inbox
                    && class.v_table.message_handlers@ == before.v_table.message_handlers@.update(
                    message_id,
                    crate::class::MessageHandler::OnMessage { handler, critical },
                )
            }),
            final(self).actor_registry() == old(self).actor_registry(),
            final(self).implementors() == old(self).implementors(),
            final(self).statistics() == old(self).statistics(),
            final(self).networking() == old(self).networking(),
            final(self).spec_world() == old(self).spec_world(),
            final(self).spec_panic_happened() == old(self).spec_panic_happened(),
    {
        let actor_id = self.actor_registry.get(actor_name).unwrap();
        let message_id = self.message_registry.get_or_register(message_name).unwrap();
        let mut slot: Option<Class<H, S>> = None;
        core::mem::swap(&mut slot, &mut self.classes[actor_id.as_usize()]);
        let mut class = slot.unwrap();
        class.add_handler(message_id, handler, critical);
        self.classes[actor_id.as_usize()] = Some(class);
    }

    /// Registers the spawner of a registered class for the messages of a
    /// type, which gets a message id unless it has one.
    pub fn add_spawner(&mut self, actor_name: &str, message_name: &str, spawner: S, critical: bool)
        requires
            old(self).wf(),
            old(self).has_class(actor_name@),
            old(self).message_registry().knows(message_name@) || !old(self).message_registry().is_full(),
        ensures
            final(self).wf(),
            final(self).message_registry().knows(message_name@),
            final(self).message_registry().names() == if old(self).message_registry().knows(
                message_name@,
            ) {
                old(self).message_registry().names()
            } else {
                old(self).message_registry().names().push(message_name@)
            },
            final(self).classes().len() == old(self).classes().len(),
            ({
                let actor_id = old(self).actor_registry().id_of(actor_name@);
                let message_id = final(self).message_registry().id_of(message_name@);
                let before = old(self).classes()[actor_id]->0;
                &&& 0 < message_id < MAX_MESSAGE_TYPES
                &&& forall|i: int|
                    0 <= i < MAX_RECIPIENT_TYPES && i != actor_id ==> final(self).classes()[i]
                        == old(self).classes()[i]
                &&& final(self).classes()[actor_id] matches Some(class) && class.instance_store
                    == before.instance_store && class.inbox == before.inbox
                    && class.v_table.message_handlers@ == before.v_table.message_handlers@.update(
                    message_id,
                    crate::class::MessageHandler::OnSpawn { spawner, critical },
                )
            }),
            final(self).actor_registry() == old(self).actor_registry(),
            final(self).implementors() == old(self).implementors(),
            final(self).statistics() == old(self).statistics(),
            final(self).networking() == old(self).networking(),
            final(self).spec_world() == old(self).spec_world(),
            final(self).spec_panic_happened() == old(self).spec_panic_happened(),
    {
        let actor_id = self.actor_registry.get(actor_name).unwrap();
        let message_id = self.message_registry.get_or_register(message_name).unwrap();
        let mut slot: Option<Class<H, S>> = None;
        core::mem::swap(&mut slot, &mut self.classes[actor_id.as_usize()]);
        let mut class = slot.unwrap();
        class.add_spawner(message_id, spawner, critical);
        self.classes[actor_id.as_usize()] = Some(class);
    }

    /// The base id of an actor class or an actor trait: its type id, on this
    /// machine, with instance id and version 0. The name gets a type id
    /// unless it has one.
    pub fn id(&mut self, name: &str) -> (id: RawID)
        requires
            old(self).wf(),
            old(self).has_room_for(name@),
        ensures
            final(self).wf(),
            id.type_id@ == final(self).actor_registry().id_of(name@),
            id.instance_id == 0,
            id.version == 0,
            id.machine == old(self).networking().machine_id(),
            final(self).actor_registry().knows(name@),
            final(self).actor_registry().names() == if old(self).actor_registry().knows(name@) {
                old(self).actor_registry().names()
            } else {
                old(self).actor_registry().names().push(name@)
            },
            final(self).classes() == old(self).classes(),
            final(self).implementors() == old(self).implementors(),
            final(self).statistics() == old(self).statistics(),
            final(self).networking() == old(self).networking(),
            final(self).message_registry() == old(self).message_registry(),
            final(self).spec_world() == old(self).spec_world(),
            final(self).spec_panic_happened() == old(self).spec_panic_happened(),
    {
        let type_id = self.short_id(name);
        RawID::new(type_id, 0, self.networking.local_machine_id(), 0)
    }

    fn short_id(&mut self, name: &str) -> (id: ShortTypeId)
        requires
            old(self).wf(),
            old(self).has_room_for(name@),
        ensures
            final(self).wf(),
            id@ == final(self).actor_registry().id_of(name@),
            final(self).actor_registry().knows(name@),
            final(self).actor_registry().names() == if old(self).actor_registry().knows(name@) {
                old(self).actor_registry().names()
            } else {
                old(self).actor_registry().names().push(name@)
            },
            final(self).classes() == old(self).classes(),
            final(self).implementors() == old(self).implementors(),
            final(self).statistics() == old(self).statistics(),
            final(self).networking() == old(self).networking(),
            final(self).message_registry() == old(self).message_registry(),
            final(self).spec_world() == old(self).spec_world(),
            final(self).spec_panic_happened() == old(self).spec_panic_happened(),
    {
        self.actor_registry.get_or_register(name).unwrap()
    }

    /// Whether a message goes to this machine: its recipient is on this
    /// machine, or is a global broadcast.
    pub open spec fn goes_here(&self, recipient: RawID) -> bool {
        recipient.machine == self.networking().machine_id() || recipient.spec_is_global_broadcast()
    }

    /// Whether a message goes to other machines: its recipient is on
    /// another machine, or is a global broadcast.
    pub open spec fn goes_out(&self, recipient: RawID) -> bool {
        recipient.machine != self.networking().machine_id() || recipient.spec_is_global_broadcast()
    }

    /// Whether a message can be sent: where it goes out, and this machine is
    /// not alone, its frame fits a batch and its recipient's machine is a
    /// machine of the network or all of them; where it goes to this machine,
    /// its recipient's type is a class, or a trait whose implementors exist.
    pub open spec fn can_send(&self, recipient: RawID, payload_len: nat) -> bool {
        &&& self.goes_out(recipient) && self.networking().network().len() != 1 ==> {
            &&& 10 + payload_len <= self.networking().batch_message_bytes()
            &&& 10 + payload_len <= 0xFFFF_FFFF
            &&& recipient.spec_is_global_broadcast() || recipient.machine.0
                < self.networking().network().len()
        }
        &&& self.goes_here(recipient) ==> routable(
            self.inboxes(),
            self.implementors(),
            recipient.type_id@ as int,
        )
    }

    /// Whether a message to a recipient with a payload of a length can be sent.
    pub fn may_send(&self, recipient: RawID, payload_len: usize) -> (b: bool)
        requires
            self.wf(),
        ensures
            b == self.can_send(recipient, payload_len as nat),
    {
        let to_here = recipient.machine.0 == self.networking.local_machine_id().0;
        let global = recipient.is_global_broadcast();
        if (!to_here || global) && self.networking.n_machines() != 1 {
            if payload_len > 0xFFFF_FFF5 {
                return false;
            }
            if payload_len + 10 > self.networking.batch_size() {
                return false;
            }
            if !global && recipient.machine.0 as usize >= self.networking.n_machines() {
                return false;
            }
        }
        if to_here || global {
            is_routable(&self.classes, &self.trait_implementors, recipient.type_id)
        } else {
            true
        }
    }

    /// Sends a message whose bytes are given. Where the recipient is on
    /// another machine or a global broadcast, the message is enqueued for
    /// that machine, or for every peer. Where the recipient is on this
    /// machine or a global broadcast, the frame of the message goes to the
    /// end of the inbox of the recipient's class, or, where the recipient's
    /// type is a trait, of each implementor's inbox.
    pub fn send_bytes(&mut self, recipient: RawID, message_type: ShortTypeId, payload: &[u8])
        requires
            old(self).wf(),
            old(self).can_send(recipient, payload@.len()),
        ensures
            final(self).wf(),
            final(self).has_sent(old(self), recipient, message_type, payload@),
            final(self).inboxes() == if old(self).goes_here(recipient) {
                routed(
                    old(self).inboxes(),
                    old(self).implementors(),
                    recipient.type_id@ as int,
                    frame_bytes(message_type@, recipient@, payload@),
                )
            } else {
                old(self).inboxes()
            },
            crate::networking::same_but_inboxes(old(self).classes(), final(self).classes()),
            !old(self).goes_out(recipient) ==> final(self).networking() == old(self).networking(),
            final(self).networking().n_turns() == old(self).networking().n_turns(),
            final(self).networking().machine_id() == old(self).networking().machine_id(),
            final(self).networking().network() == old(self).networking().network(),
            final(self).networking().batch_message_bytes() == old(self).networking().batch_message_bytes(),
            final(self).networking().acceptable_turn_distance() == old(self).networking().acceptable_turn_distance(),
            final(self).networking().skip_turns_per_turn_head() == old(self).networking().skip_turns_per_turn_head(),
            final(self).networking().connections().len() == old(self).networking().connections().len(),
            old(self).goes_out(recipient) ==> forall|i: int| #[trigger]
                old(self).networking().is_connected(i) && old(self).networking().network().len()
                    != 1 ==> {
                    let before = old(self).networking().connections()[i]->0;
                    let after = final(self).networking().connections()[i]->0;
                    let frame = frame_bytes(message_type@, recipient@, payload@);
                    &&& final(self).networking().is_connected(i)
                    &&& Networking::is_target(recipient, i) ==> after.batches() == enqueued(
                        before.batches(),
                        before.batch_message_bytes() as int,
                        frame,
                    ) && concat(after.batches()) == concat(before.batches()) + batch_entry(frame)
                    &&& !Networking::is_target(recipient, i) ==> after == before
                },
            final(self).implementors() == old(self).implementors(),
            final(self).statistics() == old(self).statistics(),
            final(self).actor_registry() == old(self).actor_registry(),
            final(self).message_registry() == old(self).message_registry(),
            final(self).spec_world() == old(self).spec_world(),
            final(self).spec_panic_happened() == old(self).spec_panic_happened(),
    {
        let to_here = recipient.machine.0 == self.networking.local_machine_id().0;
        let global = recipient.is_global_broadcast();
        if !to_here || global {
            self.networking.enqueue(message_type, recipient, payload);
        }
        if to_here || global {
            let frame = build_frame(message_type, recipient, payload);
            deliver_frame(
                &mut self.classes,
                &self.trait_implementors,
                recipient.type_id,
                frame.as_slice(),
            );
        } else {
            assert(crate::networking::same_but_inboxes(old(self).classes(), self.classes()));
        }
    }

    /// What the sending of a message with the given bytes has done.
    /// `before` is the system before. Where the message goes to this
    /// machine, its frame has been routed into the inboxes; where it goes
    /// out, its frame has been enqueued on the connection to every machine
    /// that it goes to, unless this machine is alone.
    pub open spec fn has_sent(
        &self,
        before: &Self,
        recipient: RawID,
        message_type: ShortTypeId,
        payload: Seq<u8>,
    ) -> bool {
        &&& self.inboxes() == if before.goes_here(recipient) {
            routed(
                before.inboxes(),
                before.implementors(),
                recipient.type_id@ as int,
                frame_bytes(message_type@, recipient@, payload),
            )
        } else {
            before.inboxes()
        }
        &&& !before.goes_out(recipient) ==> self.networking() == before.networking()
        &&& before.networking().network().len() == 1 ==> self.networking().connections()
            == before.networking().connections()
        &&& before.goes_out(recipient) ==> forall|i: int| #[trigger]
            before.networking().is_connected(i) && before.networking().network().len() != 1 ==> {
                let old_connection = before.networking().connections()[i]->0;
                let new_connection = self.networking().connections()[i]->0;
                let frame = frame_bytes(message_type@, recipient@, payload);
                &&& self.networking().is_connected(i)
                &&& Networking::is_target(recipient, i) ==> new_connection.batches() == enqueued(
                    old_connection.batches(),
                    old_connection.batch_message_bytes() as int,
                    frame,
                ) && concat(new_connection.batches()) == concat(old_connection.batches())
                    + batch_entry(frame)
                &&& !Networking::is_target(recipient, i) ==> new_connection == old_connection
            }
    }

    /// Sends a message in the bytes that its `encode` gives, as `send_bytes`
    /// sends them. The message must be one that can be sent, whatever bytes
    /// its `encode` gives.
    pub fn send<M: Message>(&mut self, recipient: RawID, message_type: ShortTypeId, message: M)
        requires
            old(self).wf(),
            forall|bytes: Vec<u8>| #[trigger]
                call_ensures(<M as Message>::encode, (&message,), bytes) ==> old(self).can_send(
                    recipient,
                    bytes@.len(),
                ),
        ensures
            final(self).wf(),
            exists|bytes: Vec<u8>| #[trigger]
                call_ensures(<M as Message>::encode, (&message,), bytes) && final(self).has_sent(
                    old(self),
                    recipient,
                    message_type,
                    bytes@,
                ),
            crate::networking::same_but_inboxes(old(self).classes(), final(self).classes()),
            final(self).implementors() == old(self).implementors(),
            final(self).statistics() == old(self).statistics(),
            final(self).actor_registry() == old(self).actor_registry(),
            final(self).message_registry() == old(self).message_registry(),
            final(self).spec_world() == old(self).spec_world(),
            final(self).spec_panic_happened() == old(self).spec_panic_happened(),
    {
        let payload = message.encode();
        assert(call_ensures(<M as Message>::encode, (&message,), payload));
        self.send_bytes(recipient, message_type, payload.as_slice());
        assert(self.has_sent(old(self), recipient, message_type, payload@));
    }

    /// What is unchanged by the handling of messages: the registries, the
    /// traits, the classes that exist and their dispatch tables, and the
    /// configuration of the network.
    pub open spec fn same_setup(&self, before: &Self) -> bool {
        &&& same_classes(before.classes(), self.classes())
        &&& self.implementors() == before.implementors()
        &&& self.actor_registry() == before.actor_registry()
        &&& self.message_registry() == before.message_registry()
        &&& self.networking().n_turns() == before.networking().n_turns()
        &&& self.networking().machine_id() == before.networking().machine_id()
        &&& self.networking().network() == before.networking().network()
        &&& self.networking().batch_message_bytes() == before.networking().batch_message_bytes()
        &&& self.networking().acceptable_turn_distance()
            == before.networking().acceptable_turn_distance()
        &&& self.networking().skip_turns_per_turn_head()
            == before.networking().skip_turns_per_turn_head()
    }

    /// Routes the messages that handlers have sent through the world, in
    /// the order in which they were sent. A message that cannot be sent ends
    /// the routing; it and the messages behind it are dropped. The result
    /// tells how many messages were routed, and the one that could not be.
    fn route_outbox(&mut self) -> (r: (usize, Option<SystemFailure>))
        requires
            old(self).wf(),
        ensures
            final(self).wf(),
            final(self).same_setup(old(self)),
            final(self).statistics() == old(self).statistics(),
            final(self).spec_panic_happened() == old(self).spec_panic_happened(),
            final(self).spec_world().outbox().len() == 0,
            final(self).spec_world().allocators() == old(self).spec_world().allocators(),
            final(self).spec_world().machine_id() == old(self).spec_world().machine_id(),
            final(self).spec_world().spec_panic_happened() == old(self).spec_world().spec_panic_happened(),
            inboxes_grown(old(self).classes(), final(self).classes()),
            turn_routed(
                old(self).inboxes(),
                final(self).inboxes(),
                old(self).implementors(),
                old(self).networking().machine_id(),
                old(self).spec_world().outbox(),
                r.0 as int,
            ),
            batches_routed(
                old(self).networking(),
                final(self).networking(),
                old(self).spec_world().outbox().take(r.0 as int),
            ),
            r.1 is None ==> r.0 == old(self).spec_world().outbox().len(),
            r.1 matches Some(f) ==> r.0 < old(self).spec_world().outbox().len() && f == (
            SystemFailure::Unroutable {
                recipient: old(self).spec_world().outbox()[r.0 as int].recipient,
                message_type: old(self).spec_world().outbox()[r.0 as int].message_type,
            }),
    {
        let sent = self.world.take_outbox();
        let mut i: usize = 0;
        let ghost boxes = self.inboxes();
        let ghost implementors = self.implementors();
        let ghost machine = self.networking().machine_id();
        proof {
            lemma_sent_grows(
                self.classes(),
                self.classes(),
                self.implementors(),
                0,
                Seq::empty(),
                false,
            );
            assert(sent@.take(0) =~= Seq::<Envelope>::empty());
        }
        while i < sent.len()
            invariant
                i <= sent@.len(),
                self.wf(),
                inboxes_grown(old(self).classes(), self.classes()),
                self.same_setup(old(self)),
                self.statistics() == old(self).statistics(),
                self.spec_panic_happened() == old(self).spec_panic_happened(),
                self.spec_world().outbox().len() == 0,
                self.spec_world().allocators() == old(self).spec_world().allocators(),
                self.spec_world().machine_id() == old(self).spec_world().machine_id(),
                self.spec_world().spec_panic_happened() == old(self).spec_world().spec_panic_happened(),
                sent@ == old(self).spec_world().outbox(),
                boxes == old(self).inboxes(),
                implementors == old(self).implementors(),
                machine == old(self).networking().machine_id(),
                self.inboxes() == routed_all(boxes, implementors, machine, sent@.take(i as int)),
                batches_routed(old(self).networking(), self.networking(), sent@.take(i as int)),
            decreases sent@.len() - i,
        {
            let envelope = &sent[i];
            if !self.may_send(envelope.recipient, envelope.payload.len()) {
                return (
                    i,
                    Some(
                        SystemFailure::Unroutable {
                            recipient: envelope.recipient,
                            message_type: envelope.message_type,
                        },
                    ),
                );
            }
            let ghost before = self.classes();
            let ghost here = self.goes_here(envelope.recipient);
            let ghost net = self.networking();
            self.send_bytes(envelope.recipient, envelope.message_type, envelope.payload.as_slice());
            proof {
                assert(sent@.take(i + 1).drop_last() =~= sent@.take(i as int));
                assert(sent@.take(i + 1).last() == sent@[i as int]);
                assert forall|k: int| #[trigger]
                    old(self).networking().is_connected(k) && old(self).networking().network().len()
                        != 1 implies self.networking().is_connected(k)
                    && self.networking().connections()[k]->0.batches() == enqueued_all(
                    old(self).networking().connections()[k]->0.batches(),
                    old(self).networking().batch_message_bytes() as int,
                    old(self).networking().machine_id(),
                    k,
                    sent@.take(i + 1),
                ) by {
                    assert(net.is_connected(k));
                }
                assert(same_classes(before, self.classes()));
                lemma_same_classes_trans(old(self).classes(), before, self.classes());
                lemma_sent_grows(
                    before,
                    self.classes(),
                    self.implementors(),
                    envelope.recipient.type_id@ as int,
                    frame_bytes(
                        envelope.message_type@,
                        envelope.recipient@,
                        envelope.payload@,
                    ),
                    here,
                );
                lemma_inboxes_grown_trans(old(self).classes(), before, self.classes());
                assert(sent@.take(i + 1).drop_last() =~= sent@.take(i as int));
                assert(sent@.take(i + 1).last() == sent@[i as int]);
            }
            i += 1;
        }
        proof {
            assert(sent@.take(i as int) =~= sent@);
        }
        (i, None)
    }

    /// One pass over the classes in the order of their ids. Each class
    /// handles the messages that wait in its inbox when its turn comes; the
    /// messages that its handlers send are routed when the class is done, so
    /// that a class with a larger id still gets them in this pass and any
    /// other class in the next. A failure ends the pass once the class in
    /// which it happened is done. When the handlers of a class have run,
    /// the world that they had in hand is made to fit the system again.
    ///
    /// What ran in the turn of each class, and on which store and world,
    /// is told by `pass_ran`, as are the recipients that were not found and
    /// where the messages went that were sent.
    pub fn single_message_cycle(&mut self) -> (report: ProcessReport)
        requires
            old(self).wf(),
        ensures
            final(self).wf(),
            final(self).same_setup(old(self)),
            final(self).spec_panic_happened() == old(self).spec_panic_happened(),
            passed(
                old(self).pass_state(),
                final(self).pass_state(),
                old(self).spec_panic_happened(),
                report.failure,
            ),
            report.failure matches Some(SystemFailure::Dispatch { class, failure }) ==> class
                < MAX_RECIPIENT_TYPES && old(self).classes()[class as int] is Some
                && failure.dispatched.is_failure(),
            pass_ran(
                old(self).pass_state(),
                final(self).pass_state(),
                old(self).spec_world(),
                final(self).spec_world(),
                old(self).networking(),
                final(self).networking(),
                old(self).spec_panic_happened(),
                old(self).networking().machine_id(),
                old(self).implementors(),
                report.failure,
                id_views(report.not_found@),
            ),
    {
        let mut not_found: Vec<RawID> = Vec::new();
        let mut c: usize = 0;
        let ghost first = self.pass_state();
        let ghost panic_happened = self.panic_happened;
        let ghost machine = self.networking().machine_id();
        let ghost implementors = self.implementors();
        let ghost mut states: Seq<PassState<H, S>> = seq![self.pass_state()];
        let ghost mut handed: Seq<World> = seq![self.world];
        let ghost mut left: Seq<World> = Seq::empty();
        let ghost mut found: Seq<Seq<RawIDView>> = Seq::empty();
        let ghost mut nets: Seq<Networking> = seq![self.networking()];
        while c < MAX_RECIPIENT_TYPES
            invariant
                c <= MAX_RECIPIENT_TYPES,
                self.wf(),
                self.same_setup(old(self)),
                self.spec_panic_happened() == old(self).spec_panic_happened(),
                panic_happened == old(self).spec_panic_happened(),
                machine == old(self).networking().machine_id(),
                implementors == old(self).implementors(),
                first == old(self).pass_state(),
                turns_taken(first, self.pass_state(), c as int, panic_happened),
                left.len() == c,
                turns_done(
                    states,
                    handed,
                    left,
                    found,
                    nets,
                    panic_happened,
                    machine,
                    implementors,
                    None,
                ),
                nets[0] == old(self).networking(),
                nets[c as int] == self.networking(),
                id_views(not_found@) == joined(found),
                states[0] == first,
                states[c as int] == self.pass_state(),
                handed[0] == old(self).spec_world(),
                handed[c as int] == self.spec_world(),
            decreases MAX_RECIPIENT_TYPES - c,
        {
            let ghost before = self.pass_state();
            let ghost start = self.classes();
            let ghost states0 = states;
            let ghost handed0 = handed;
            let ghost left0 = left;
            let ghost found0 = found;
            let ghost nets0 = nets;
            let ghost net_before = self.networking();
            let ghost mut turn_found: Seq<RawIDView> = Seq::empty();
            let ghost mut turn_rest: Seq<Seq<u8>> = Seq::empty();
            let ghost not_found0 = not_found@;
            let ghost world_before = self.world;
            let ghost mut world_left = self.world;
            let mut ended: Option<SystemFailure> = None;
            let mut slot: Option<Class<H, S>> = None;
            core::mem::swap(&mut slot, &mut self.classes[c]);
            match slot {
                None => {
                    assert(self.classes() =~= start);
                    assert(turn_taken(before, self.pass_state(), c as int, panic_happened));
                },
                Some(mut class) => {
                    let ghost x = class;
                    let mut report = class.handle_messages(
                        &mut self.message_statistics,
                        &mut self.world,
                        self.panic_happened,
                    );
                    let ghost handled = report.handled as int;
                    let ghost after_class = class;
                    proof {
                        world_left = self.world;
                        turn_found = id_views(report.not_found@);
                        turn_rest = class.inbox@;
                    }
                    self.classes[c] = Some(class);
                    self.world.fit(self.networking.local_machine_id(), MAX_RECIPIENT_TYPES);
                    proof {
                        assert forall|k: int| 0 <= k < start.len() implies match #[trigger] start[k] {
                            Some(x) => self.classes()[k] matches Some(d) && d.v_table == x.v_table,
                            None => self.classes()[k] is None,
                        } by {
                        }
                        assert(same_classes(start, self.classes()));
                        lemma_same_classes_trans(old(self).classes(), start, self.classes());
                        assert forall|k: int| 0 <= k < self.classes().len() implies (
                        #[trigger] self.classes()[k] matches Some(x) ==> x.wf()) by {
                            if k != c {
                                assert(self.classes()[k] == start[k]);
                            }
                        }
                    }
                    not_found.append(&mut report.not_found);
                    assert(id_views(not_found@) =~= id_views(not_found0) + turn_found);
                    let ghost mid = self.classes();
                    proof {
                        assert(self.inboxes() =~= inboxes(before.classes).update(
                            c as int,
                            Some(turn_rest),
                        ));
                    }
                    let routing = self.route_outbox();
                    let unroutable = routing.1;
                    proof {
                        lemma_same_classes_trans(old(self).classes(), mid, self.classes());
                        let now = self.pass_state();
                        assert(others_kept(before.classes, now.classes, c as int)) by {
                            assert forall|j: int|
                                0 <= j < before.classes.len() && j != c implies match #[trigger] before.classes[j] {
                                Some(x) => now.classes[j] matches Some(y) && y.instance_store
                                    == x.instance_store && y.v_table == x.v_table && grown(
                                    x.inbox@,
                                    y.inbox@,
                                ),
                                None => now.classes[j] is None,
                            } by {
                                assert(mid[j] == before.classes[j]);
                            }
                        }
                        assert(mid[c as int] == Some(after_class));
                        assert(now.classes[c as int] is Some);
                        assert(now.classes[c as int]->0.instance_store
                            == after_class.instance_store);
                        assert(grown(after_class.inbox@, now.classes[c as int]->0.inbox@));
                        assert(handed_on(world_left, self.spec_world(), machine));
                    }
                    match report.failure {
                        Some(failure) => {
                            proof {
                                let now = self.pass_state();
                                let inner = choose|inner: StoreModel| #[trigger]
                                    dispatched_all(
                                        x.instance_store.model(),
                                        inner,
                                        x.v_table.message_handlers@,
                                        x.inbox@.subrange(0, handled),
                                        panic_happened,
                                    ) && dispatch_result(
                                        inner,
                                        after_class.instance_store.model(),
                                        entry_for(
                                            x.v_table.message_handlers@,
                                            failure.message_type@ as int,
                                        ),
                                        frame_recipient(x.inbox@[handled]),
                                        panic_happened,
                                        failure.dispatched,
                                    );
                                assert(dispatched_all(
                                    x.instance_store.model(),
                                    inner,
                                    x.v_table.message_handlers@,
                                    x.inbox@.subrange(0, handled),
                                    panic_happened,
                                ) && grown(
                                    x.inbox@.skip(handled + 1),
                                    now.classes[c as int]->0.inbox@,
                                ));
                                assert(turn_failed(before, now, c as int, panic_happened, failure));
                                assert(turns_taken(first, before, c as int, panic_happened));
                            }
                            ended = Some(SystemFailure::Dispatch { class: c, failure });
                        },
                        None => {
                            proof {
                                let now = self.pass_state();
                                assert(x.inbox@.subrange(0, handled) =~= x.inbox@);
                                assert(turn_taken(before, now, c as int, panic_happened));
                                lemma_next_turn(first, before, now, c as int, panic_happened);
                            }
                            ended = unroutable;
                        },
                    }
                },
            }
            proof {
                states = states.push(self.pass_state());
                handed = handed.push(self.world);
                left = left.push(world_left);
                found = found.push(turn_found);
                nets = nets.push(self.networking());
                assert(found.drop_last() == found0);
                assert(id_views(not_found@) =~= joined(found));
                assert(turn_ran(
                    before,
                    self.pass_state(),
                    c as int,
                    world_before,
                    world_left,
                    self.spec_world(),
                    net_before,
                    self.networking(),
                    panic_happened,
                    machine,
                    implementors,
                    failed_in(ended, c as int),
                    unroutable_after(ended, left.len(), c as int),
                    turn_found,
                ));
                assert forall|k: int| 0 <= k < left.len() implies #[trigger] turn_step(
                    states,
                    handed,
                    left,
                    found,
                    nets,
                    k,
                    panic_happened,
                    machine,
                    implementors,
                    ended,
                ) by {
                    if k < c {
                        assert(turn_step(
                            states0,
                            handed0,
                            left0,
                            found0,
                            nets0,
                            k,
                            panic_happened,
                            machine,
                            implementors,
                            None,
                        ));
                        assert(unroutable_after(ended, left.len(), k) is None);
                        assert(unroutable_after(None, left0.len(), k) is None);
                        assert(found[k] == found0[k]);
                        assert(nets[k] == nets0[k]);
                        assert(nets[k + 1] == nets0[k + 1]);
                        assert(states[k] == states0[k]);
                        assert(states[k + 1] == states0[k + 1]);
                        assert(handed[k] == handed0[k]);
                        assert(handed[k + 1] == handed0[k + 1]);
                        assert(left[k] == left0[k]);
                        assert(failed_in(ended, k) is None);
                        assert(failed_in(None, k) is None);
                    } else {
                        assert(states[k] == before);
                        assert(states[k + 1] == self.pass_state());
                        assert(handed[k] == world_before);
                        assert(handed[k + 1] == self.spec_world());
                        assert(left[k] == world_left);
                        assert(found[k] == turn_found);
                        assert(nets[k] == net_before);
                        assert(nets[k + 1] == self.networking());
                    }
                }
                assert(turns_done(
                    states,
                    handed,
                    left,
                    found,
                    nets,
                    panic_happened,
                    machine,
                    implementors,
                    ended,
                ));
            }
            match ended {
                Some(failure) => {
                    let report = ProcessReport { not_found, failure: Some(failure) };
                    proof {
                        assert(turns_done(
                            states,
                            handed,
                            left,
                            found,
                            nets,
                            panic_happened,
                            machine,
                            implementors,
                            report.failure,
                        ));
                    }
                    return report;
                },
                None => {},
            }
            proof {
                lemma_next_turn(first, before, self.pass_state(), c as int, panic_happened);
            }
            c += 1;
        }
        let report = ProcessReport { not_found, failure: None };
        proof {
            assert(turns_done(
                states,
                handed,
                left,
                found,
                nets,
                panic_happened,
                machine,
                implementors,
                report.failure,
            ));
        }
        report
    }

    /// Handles the messages that wait in the inboxes, and those that their
    /// handling brings, in at most 1000 passes over the classes. A failure
    /// (a handler or spawner panics, a message has no handler, a spawned
    /// instance cannot be added, a sent message cannot be routed) ends the
    /// processing and puts the system into the panicked state, in which
    /// only critical handlers run.
    ///
    /// What ran in each pass, and on which stores and worlds, is told by
    /// `passes_ran`, as are the recipients that were not found and where the
    /// messages went that were sent.
    pub fn process_all_messages(&mut self) -> (report: ProcessReport)
        requires
            old(self).wf(),
        ensures
            final(self).wf(),
            final(self).same_setup(old(self)),
            final(self).spec_panic_happened() == (old(self).spec_panic_happened()
                || report.failure is Some),
            match report.failure {
                None => passes_made(
                    old(self).pass_state(),
                    final(self).pass_state(),
                    MAX_CYCLES as int,
                    old(self).spec_panic_happened(),
                ),
                Some(_) => exists|n: int, mid: PassState<H, S>|
                    0 <= n < MAX_CYCLES && #[trigger] passes_made(
                        old(self).pass_state(),
                        mid,
                        n,
                        old(self).spec_panic_happened(),
                    ) && passed(
                        mid,
                        final(self).pass_state(),
                        old(self).spec_panic_happened(),
                        report.failure,
                    ),
            },
            report.failure matches Some(SystemFailure::Dispatch { class, failure }) ==> class
                < MAX_RECIPIENT_TYPES && old(self).classes()[class as int] is Some
                && failure.dispatched.is_failure(),
            passes_ran(
                old(self).pass_state(),
                final(self).pass_state(),
                old(self).spec_world(),
                final(self).spec_world(),
                old(self).networking(),
                final(self).networking(),
                old(self).spec_panic_happened(),
                old(self).networking().machine_id(),
                old(self).implementors(),
                report.failure,
                id_views(report.not_found@),
            ),
    {
        let mut not_found: Vec<RawID> = Vec::new();
        self.world.set_panic_happened(self.panic_happened);
        let mut cycle: usize = 0;
        let ghost first = self.pass_state();
        let ghost panic_happened = self.panic_happened;
        let ghost machine = self.networking().machine_id();
        let ghost implementors = self.implementors();
        let ghost mut passes: Seq<PassState<H, S>> = seq![self.pass_state()];
        let ghost mut begun: Seq<World> = seq![self.world];
        let ghost mut found: Seq<Seq<RawIDView>> = Seq::empty();
        let ghost mut nets: Seq<Networking> = seq![self.networking()];
        while cycle < MAX_CYCLES
            invariant
                cycle <= MAX_CYCLES,
                self.wf(),
                self.same_setup(old(self)),
                self.spec_panic_happened() == old(self).spec_panic_happened(),
                panic_happened == old(self).spec_panic_happened(),
                machine == old(self).networking().machine_id(),
                implementors == old(self).implementors(),
                first == old(self).pass_state(),
                passes_made(first, self.pass_state(), cycle as int, panic_happened),
                passes.len() == cycle + 1,
                passes_done(
                    passes,
                    begun,
                    found,
                    nets,
                    panic_happened,
                    machine,
                    implementors,
                    None,
                ),
                nets[0] == old(self).networking(),
                nets[cycle as int] == self.networking(),
                id_views(not_found@) == joined(found),
                passes[0] == first,
                passes[cycle as int] == self.pass_state(),
                noted(old(self).spec_world(), begun[0], panic_happened),
                begun[cycle as int] == self.spec_world(),
            decreases MAX_CYCLES - cycle,
        {
            let ghost before = self.pass_state();
            let ghost mid = self.classes();
            let ghost passes0 = passes;
            let ghost begun0 = begun;
            let ghost found0 = found;
            let ghost nets0 = nets;
            let ghost net_before = self.networking();
            let ghost not_found0 = not_found@;
            let ghost world_before = self.world;
            let mut report = self.single_message_cycle();
            let ghost outcome = report.failure;
            let ghost pass_found = id_views(report.not_found@);
            proof {
                lemma_same_classes_trans(old(self).classes(), mid, self.classes());
                passes = passes.push(self.pass_state());
                begun = begun.push(self.world);
                found = found.push(pass_found);
                nets = nets.push(self.networking());
                assert(found.drop_last() == found0);
                assert forall|n: int| 0 <= n < passes.len() - 1 implies #[trigger] pass_step(
                    passes,
                    begun,
                    found,
                    nets,
                    n,
                    panic_happened,
                    machine,
                    implementors,
                    outcome,
                ) by {
                    if n < cycle {
                        assert(pass_step(
                            passes0,
                            begun0,
                            found0,
                            nets0,
                            n,
                            panic_happened,
                            machine,
                            implementors,
                            None,
                        ));
                        assert(found[n] == found0[n]);
                        assert(nets[n] == nets0[n]);
                        assert(nets[n + 1] == nets0[n + 1]);
                        assert(passes[n] == passes0[n]);
                        assert(passes[n + 1] == passes0[n + 1]);
                        assert(begun[n] == begun0[n]);
                        assert(begun[n + 1] == begun0[n + 1]);
                        assert(failed_pass(None, (passes0.len() - 1) as nat, n) is None);
                        assert(failed_pass(outcome, (passes.len() - 1) as nat, n) is None);
                    } else {
                        assert(passes[n] == before);
                        assert(passes[n + 1] == self.pass_state());
                        assert(begun[n] == world_before);
                        assert(begun[n + 1] == self.spec_world());
                        assert(found[n] == pass_found);
                        assert(nets[n] == net_before);
                        assert(nets[n + 1] == self.networking());
                        assert(failed_pass(outcome, (passes.len() - 1) as nat, n) == outcome);
                    }
                }
                assert(passes_done(
                    passes,
                    begun,
                    found,
                    nets,
                    panic_happened,
                    machine,
                    implementors,
                    outcome,
                ));
            }
            not_found.append(&mut report.not_found);
            proof {
                assert(id_views(not_found@) =~= id_views(not_found0) + pass_found);
                assert(id_views(not_found@) =~= joined(found));
            }
            match report.failure {
                Some(failure) => {
                    self.panic_happened = true;
                    self.world.set_panic_happened(true);
                    let report = ProcessReport { not_found, failure: Some(failure) };
                    proof {
                        assert(passes_made(first, before, cycle as int, panic_happened) && passed(
                            before,
                            self.pass_state(),
                            panic_happened,
                            Some(failure),
                        ));
                        assert(passes_done(
                            passes,
                            begun,
                            found,
                            nets,
                            panic_happened,
                            machine,
                            implementors,
                            report.failure,
                        ));
                    }
                    return report;
                },
                None => {},
            }
            proof {
                lemma_next_pass(first, before, self.pass_state(), cycle as int, panic_happened);
            }
            cycle += 1;
        }
        let report = ProcessReport { not_found, failure: None };
        proof {
            assert(passes_done(
                passes,
                begun,
                found,
                nets,
                panic_happened,
                machine,
                implementors,
                report.failure,
            ));
        }
        report
    }

    /// The id for an instance of a registered class that is about to be
    /// spawned: on this machine, with the instance id and version that the
    /// class's allocator hands out, under which the class can then add the
    /// instance. `None` where no class has the type id or no id is left,
    /// and where the class cannot take an instance under the id that the
    /// allocator gives; an allocator that agrees with the store of the
    /// class gives no such id.
    pub fn allocate_instance_id(&mut self, type_id: ShortTypeId) -> (r: Option<RawID>)
        requires
            old(self).wf(),
        ensures
            final(self).wf(),
            final(self).same_setup(old(self)),
            final(self).inboxes() == old(self).inboxes(),
            final(self).statistics() == old(self).statistics(),
            final(self).spec_panic_happened() == old(self).spec_panic_happened(),
            forall|i: int|
                0 <= i < MAX_RECIPIENT_TYPES && i != type_id@ ==> final(self).classes()[i] == old(self).classes()[i],
            if type_id@ < MAX_RECIPIENT_TYPES && old(self).classes()[type_id@ as int] is Some {
                let store = old(self).classes()[type_id@ as int]->0.instance_store;
                let after = final(self).classes()[type_id@ as int]->0.instance_store;
                let given = old(self).spec_world().would_allocate(type_id);
                &&& allocated(old(self).spec_world(), final(self).spec_world(), type_id, given)
                &&& r == (if given is Some && store.admits(given->0) {
                    given
                } else {
                    None
                })
                &&& r matches Some(id) ==> after.can_add(id)
                &&& after.instances() == store.instances()
                &&& after.model().count == store.model().count
                &&& old(self).spec_world().knows_class(type_id) && agrees(
                    store.model(),
                    old(self).spec_world().allocators()[type_id@ as int]->0,
                ) ==> agrees(
                    after.model(),
                    final(self).spec_world().allocators()[type_id@ as int]->0,
                ) && (r is Some <==> given is Some)
            } else {
                r is None && final(self).spec_world() == old(self).spec_world()
            },
    {
        let index = type_id.as_usize();
        if index >= MAX_RECIPIENT_TYPES {
            return None;
        }
        let ghost start = self.classes();
        let mut slot: Option<Class<H, S>> = None;
        core::mem::swap(&mut slot, &mut self.classes[index]);
        match slot {
            None => {
                assert(self.classes() =~= start);
                None
            },
            Some(mut class) => {
                let base = RawID::new(type_id, 0, self.networking.local_machine_id(), 0);
                let r = class.instance_store.allocate_id(base.local_broadcast(), &mut self.world);
                self.classes[index] = Some(class);
                proof {
                    assert(self.inboxes() =~= old(self).inboxes());
                    assert(same_classes(old(self).classes(), self.classes()));
                }
                r
            },
        }
    }

    /// Ends a networking turn of this machine: every connected peer is told
    /// the new number of ended turns. The result is the number of turns to
    /// skip where a peer is further behind than is acceptable.
    pub fn networking_finish_turn(&mut self) -> (skip: Option<usize>)
        requires
            old(self).wf(),
            old(self).networking().can_finish_turn(),
        ensures
            final(self).wf(),
            final(self).networking().n_turns() == old(self).networking().n_turns() + 1,
            match skip_turns(
                old(self).networking().connections(),
                old(self).networking().n_turns() as int,
                old(self).networking().acceptable_turn_distance() as int,
                old(self).networking().skip_turns_per_turn_head() as int,
            ) {
                Some(n) => skip == Some(n as usize) && n <= usize::MAX,
                None => skip is None,
            },
            forall|i: int| #[trigger]
                old(self).networking().is_connected(i) ==> {
                    let before = old(self).networking().connections()[i]->0;
                    let after = final(self).networking().connections()[i]->0;
                    &&& final(self).networking().is_connected(i)
                    &&& concat(after.batches()) == concat(before.batches()) + batch_entry(
                        control_frame((old(self).networking().n_turns() + 1) as u32),
                    )
                    &&& after.n_turns() == before.n_turns()
                    &&& after.n_turns_since_own_turn() == 0
                },
            final(self).classes() == old(self).classes(),
            final(self).implementors() == old(self).implementors(),
            final(self).statistics() == old(self).statistics(),
            final(self).actor_registry() == old(self).actor_registry(),
            final(self).message_registry() == old(self).message_registry(),
            final(self).spec_world() == old(self).spec_world(),
            final(self).spec_panic_happened() == old(self).spec_panic_happened(),
    {
        self.networking.finish_turn()
    }

    /// The machine id of this system.
    pub fn networking_machine_id(&self) -> (id: MachineID)
        ensures
            id == self.networking().machine_id(),
    {
        self.networking.local_machine_id()
    }

    /// The number of networking turns that this machine has ended.
    pub fn networking_n_turns(&self) -> (n: usize)
        ensures
            n == self.networking().n_turns(),
    {
        self.networking.turns()
    }

    /// This machine's view of how far every machine is in its turns.
    pub fn networking_debug_all_n_turns(&self) -> (all: Vec<(MachineID, isize)>)
        requires
            self.wf(),
        ensures
            all@.len() == self.networking().connections().len(),
            forall|i: int|
                0 <= i < all@.len() ==> (#[trigger] all@[i]).0 == MachineID(i as u8) && all@[i].1
                    == (if i == self.networking().machine_id().0 {
                    crate::networking::shown_turns(self.networking().n_turns())
                } else if self.networking().connections()[i] is Some {
                    crate::networking::shown_turns(self.networking().connections()[i]->0.n_turns())
                } else {
                    -1
                }),
    {
        self.networking.debug_all_n_turns()
    }

    /// The networking of this system.
    pub fn networking_state(&self) -> (n: &Networking)
        ensures
            *n == self.networking(),
    {
        &self.networking
    }

    /// Takes the connection to a machine into use.
    pub fn networking_connected(&mut self, peer_machine_id: usize)
        requires
            old(self).wf(),
            peer_machine_id < old(self).networking().connections().len(),
        ensures
            final(self).wf(),
            final(self).same_setup(old(self)),
            final(self).classes() == old(self).classes(),
            final(self).networking().is_connected(peer_machine_id as int),
            forall|i: int|
                0 <= i < old(self).networking().connections().len() && i != peer_machine_id
                    ==> final(self).networking().connections()[i] == old(self).networking().connections()[i],
            final(self).statistics() == old(self).statistics(),
            final(self).spec_world() == old(self).spec_world(),
            final(self).spec_panic_happened() == old(self).spec_panic_happened(),
    {
        self.networking.connected(peer_machine_id);
        assert(same_classes(old(self).classes(), self.classes()));
    }

    /// Gives up the connection to a machine.
    pub fn networking_close(&mut self, peer_machine_id: usize)
        requires
            old(self).wf(),
            peer_machine_id < old(self).networking().connections().len(),
        ensures
            final(self).wf(),
            final(self).same_setup(old(self)),
            final(self).classes() == old(self).classes(),
            final(self).networking().connections() == old(self).networking().connections().update(
                peer_machine_id as int,
                None,
            ),
            final(self).statistics() == old(self).statistics(),
            final(self).spec_world() == old(self).spec_world(),
            final(self).spec_panic_happened() == old(self).spec_panic_happened(),
    {
        self.networking.close(peer_machine_id);
        assert(same_classes(old(self).classes(), self.classes()));
    }

    /// Takes out the batches that wait to be sent to a machine, oldest first.
    pub fn networking_take_pending(&mut self, peer_machine_id: usize) -> (batches: Vec<Vec<u8>>)
        requires
            old(self).wf(),
            peer_machine_id < old(self).networking().connections().len(),
        ensures
            final(self).wf(),
            final(self).same_setup(old(self)),
            final(self).classes() == old(self).classes(),
            !old(self).networking().is_connected(peer_machine_id as int) ==> batches@.len() == 0,
            old(self).networking().is_connected(peer_machine_id as int) ==> final(self).networking().is_connected(peer_machine_id as int) && batches@.map_values(
                |b: Vec<u8>| b@,
            ) == old(self).networking().connections()[peer_machine_id as int]->0.batches() && final(self).networking().connections()[peer_machine_id as int]->0.batches()
                == seq![Seq::<u8>::empty()],
            forall|i: int|
                0 <= i < old(self).networking().connections().len() && i != peer_machine_id
                    ==> final(self).networking().connections()[i] == old(self).networking().connections()[i],
            final(self).statistics() == old(self).statistics(),
            final(self).spec_world() == old(self).spec_world(),
            final(self).spec_panic_happened() == old(self).spec_panic_happened(),
    {
        let batches = self.networking.take_pending(peer_machine_id);
        assert(same_classes(old(self).classes(), self.classes()));
        batches
    }

    /// Whether a batch that came from a machine can be dispatched: there is
    /// a connection to the machine, and the batch is made of control frames
    /// and of frames whose recipients can be routed here.
    pub fn networking_may_receive(&self, peer_machine_id: usize, data: &[u8]) -> (b: bool)
        requires
            self.wf(),
        ensures
            b == (self.networking().is_connected(peer_machine_id as int) && batch_ok(
                data@,
                0,
                self.inboxes(),
                self.implementors(),
            ) && self.networking().connections()[peer_machine_id as int]->0.n_turns_since_own_turn()
                + data@.len() <= usize::MAX),
    {
        if peer_machine_id >= self.networking.n_machines() {
            return false;
        }
        match self.networking.turns_since_own_turn(peer_machine_id) {
            None => false,
            Some(since) => {
                if data.len() > usize::MAX - since {
                    return false;
                }
                can_dispatch_batch(data, &self.classes, &self.trait_implementors)
            },
        }
    }

    /// Dispatches a batch that came from a machine: its messages go into
    /// the inboxes here, its turn ends are counted for the connection. The
    /// result says whether to stop receiving from this machine for now.
    pub fn networking_receive(&mut self, peer_machine_id: usize, data: &[u8]) -> (wants_to_wait:
        bool)
        requires
            old(self).wf(),
            old(self).networking().is_connected(peer_machine_id as int),
            batch_ok(data@, 0, old(self).inboxes(), old(self).implementors()),
            old(self).networking().connections()[peer_machine_id as int]->0.n_turns_since_own_turn()
                + data@.len() <= usize::MAX,
        ensures
            final(self).wf(),
            final(self).same_setup(old(self)),
            same_but_inboxes(old(self).classes(), final(self).classes()),
            final(self).networking().is_connected(peer_machine_id as int),
            ({
                let before = old(self).networking().connections()[peer_machine_id as int]->0;
                let after = final(self).networking().connections()[peer_machine_id as int]->0;
                let st = dispatched_from(
                    data@,
                    0,
                    BatchState {
                        boxes: old(self).inboxes(),
                        n_turns: before.n_turns() as int,
                        since: before.n_turns_since_own_turn() as int,
                        wait: false,
                    },
                    old(self).implementors(),
                );
                &&& final(self).inboxes() == st.boxes
                &&& after.n_turns() == st.n_turns
                &&& after.n_turns_since_own_turn() == st.since
                &&& after.batches() == before.batches()
                &&& wants_to_wait == st.wait
            }),
            forall|i: int|
                0 <= i < old(self).networking().connections().len() && i != peer_machine_id
                    ==> final(self).networking().connections()[i] == old(self).networking().connections()[i],
            final(self).statistics() == old(self).statistics(),
            final(self).spec_world() == old(self).spec_world(),
            final(self).spec_panic_happened() == old(self).spec_panic_happened(),
    {
        let wants_to_wait = self.networking.receive(
            peer_machine_id,
            data,
            &mut self.classes,
            &self.trait_implementors,
        );
        assert(same_classes(old(self).classes(), self.classes()));
        wants_to_wait
    }

    /// Lets this machine jump ahead where a peer is more than 1000 turns ahead of it.
    pub fn networking_catch_up(&mut self)
        requires
            old(self).wf(),
        ensures
            final(self).wf(),
            final(self).networking().connections() == old(self).networking().connections(),
            final(self).networking().n_turns() == if crate::networking::max_peer_turns(
                old(self).networking().connections(),
            ) > 1000 + old(self).networking().n_turns() {
                crate::networking::max_peer_turns(old(self).networking().connections())
            } else {
                old(self).networking().n_turns()
            },
            final(self).classes() == old(self).classes(),
            final(self).implementors() == old(self).implementors(),
            final(self).statistics() == old(self).statistics(),
            final(self).actor_registry() == old(self).actor_registry(),
            final(self).message_registry() == old(self).message_registry(),
            final(self).spec_world() == old(self).spec_world(),
            final(self).spec_panic_happened() == old(self).spec_panic_happened(),
    {
        self.networking.catch_up();
    }

    /// Sets the count of handled messages of every type to zero.
    pub fn reset_message_statistics(&mut self)
        requires
            old(self).wf(),
        ensures
            final(self).wf(),
            forall|t: int| 0 <= t < MAX_MESSAGE_TYPES ==> final(self).statistics()[t] == 0,
            final(self).classes() == old(self).classes(),
            final(self).implementors() == old(self).implementors(),
            final(self).networking() == old(self).networking(),
            final(self).actor_registry() == old(self).actor_registry(),
            final(self).message_registry() == old(self).message_registry(),
            final(self).spec_world() == old(self).spec_world(),
            final(self).spec_panic_happened() == old(self).spec_panic_happened(),
    {
        let mut t: usize = 0;
        while t < MAX_MESSAGE_TYPES
            invariant
                t <= MAX_MESSAGE_TYPES,
                self.wf(),
                forall|k: int| 0 <= k < t ==> self.statistics()[k] == 0,
                self.classes() == old(self).classes(),
                self.implementors() == old(self).implementors(),
                self.networking() == old(self).networking(),
                self.actor_registry() == old(self).actor_registry(),
                self.message_registry() == old(self).message_registry(),
                self.spec_world() == old(self).spec_world(),
                self.spec_panic_happened() == old(self).spec_panic_happened(),
            decreases MAX_MESSAGE_TYPES - t,
        {
            self.message_statistics[t] = 0;
            t += 1;
        }
    }

    /// The number of handled messages of a type.
    pub fn message_count(&self, message_type: ShortTypeId) -> (n: usize)
        requires
            self.wf(),
        ensures
            message_type@ < MAX_MESSAGE_TYPES ==> n == self.statistics()[message_type@ as int],
            message_type@ >= MAX_MESSAGE_TYPES ==> n == 0,
    {
        let t = message_type.as_usize();
        if t < MAX_MESSAGE_TYPES {
            self.message_statistics[t]
        } else {
            0
        }
    }

    /// The class with a type id, if there is one.
    pub fn class(&self, type_id: ShortTypeId) -> (r: Option<&Class<H, S>>)
        requires
            self.wf(),
        ensures
            r is Some <==> type_id@ < MAX_RECIPIENT_TYPES && self.classes()[type_id@ as int] is Some,
            r matches Some(c) ==> *c == self.classes()[type_id@ as int]->0 && c.wf(),
    {
        let t = type_id.as_usize();
        if t < MAX_RECIPIENT_TYPES {
            self.classes[t].as_ref()
        } else {
            None
        }
    }

    /// The number of live instances of each class, in the order of the class
    /// ids, each under the short name of its class.
    pub fn get_instance_counts(&self) -> (counts: Vec<(String, usize)>)
        requires
            self.wf(),
        ensures
            named(counts@) == instance_counts(self.classes(), MAX_RECIPIENT_TYPES as int),
    {
        let mut counts: Vec<(String, usize)> = Vec::new();
        let mut i: usize = 0;
        assert(named(counts@) =~= instance_counts(self.classes(), 0));
        while i < MAX_RECIPIENT_TYPES
            invariant
                i <= MAX_RECIPIENT_TYPES,
                self.wf(),
                named(counts@) == instance_counts(self.classes(), i as int),
            decreases MAX_RECIPIENT_TYPES - i,
        {
            match &self.classes[i] {
                Some(class) => {
                    let name = short_name(class.v_table.name.as_str());
                    let n = class.instance_store.n_instances();
                    let ghost before = counts@;
                    counts.push((name, n));
                    assert(named(counts@) =~= named(before).push((name@, n)));
                },
                None => {},
            }
            i += 1;
        }
        counts
    }

    /// The number of handled messages of each message type that has a name
    /// and of which any were handled, in the order of the message ids, each
    /// under the name of its type.
    pub fn get_message_statistics(&self) -> (counts: Vec<(String, usize)>)
        requires
            self.wf(),
        ensures
            named(counts@) == message_counts(
                self.statistics(),
                self.message_registry().names(),
                MAX_MESSAGE_TYPES as int,
            ),
    {
        let mut counts: Vec<(String, usize)> = Vec::new();
        let mut t: usize = 1;
        assert(named(counts@) =~= message_counts(
            self.statistics(),
            self.message_registry().names(),
            1,
        )) by {
            reveal_with_fuel(message_counts, 2);
        }
        while t < MAX_MESSAGE_TYPES
            invariant
                1 <= t <= MAX_MESSAGE_TYPES,
                self.wf(),
                named(counts@) == message_counts(
                    self.statistics(),
                    self.message_registry().names(),
                    t as int,
                ),
            decreases MAX_MESSAGE_TYPES - t,
        {
            let n_sent = self.message_statistics[t];
            if n_sent > 0 {
                let id = ShortTypeId::new(t as u16).unwrap();
                match self.message_registry.get_name(id) {
                    Some(name) => {
                        let ghost before = counts@;
                        counts.push((name.clone(), n_sent));
                        assert(named(counts@) =~= named(before).push((name@, n_sent)));
                    },
                    None => {},
                }
            }
            t += 1;
        }
        counts
    }

    /// The number of messages that wait in the inbox of each class whose
    /// type id has a name, in the order of the class ids, each under the
    /// name of its class.
    pub fn get_queue_lengths(&self) -> (lengths: Vec<(String, usize)>)
        requires
            self.wf(),
        ensures
            named(lengths@) == queue_lengths(
                self.inboxes(),
                self.actor_registry().names(),
                MAX_RECIPIENT_TYPES as int,
            ),
    {
        let mut lengths: Vec<(String, usize)> = Vec::new();
        let mut i: usize = 1;
        assert(named(lengths@) =~= queue_lengths(
            self.inboxes(),
            self.actor_registry().names(),
            1,
        )) by {
            reveal_with_fuel(queue_lengths, 2);
        }
        while i < MAX_RECIPIENT_TYPES
            invariant
                1 <= i <= MAX_RECIPIENT_TYPES,
                self.wf(),
                named(lengths@) == queue_lengths(
                    self.inboxes(),
                    self.actor_registry().names(),
                    i as int,
                ),
            decreases MAX_RECIPIENT_TYPES - i,
        {
            match &self.classes[i] {
                Some(class) => {
                    let id = ShortTypeId::new(i as u16).unwrap();
                    match self.actor_registry.get_name(id) {
                        Some(name) => {
                            let ghost before = lengths@;
                            lengths.push((name.clone(), class.inbox.len()));
                            assert(named(lengths@) =~= named(before).push(
                                (name@, class.inbox@.len() as usize),
                            ));
                        },
                        None => {},
                    }
                },
                None => {},
            }
            i += 1;
        }
        lengths
    }

    /// The name of each type id of an actor class or actor trait, in the order of the ids.
    pub fn get_actor_type_id_to_name_mapping(&self) -> (mapping: Vec<(u16, String)>)
        requires
            self.wf(),
        ensures
            mapping@.len() == self.actor_registry().names().len(),
            forall|k: int|
                0 <= k < mapping@.len() ==> (#[trigger] mapping@[k]).0 == k + 1 && mapping@[k].1@
                    == self.actor_registry().names()[k],
    {
        let mut mapping: Vec<(u16, String)> = Vec::new();
        let n = self.actor_registry.len();
        let mut i: usize = 0;
        while i < n
            invariant
                i <= n,
                n == self.actor_registry().names().len(),
                self.wf(),
                mapping@.len() == i,
                forall|k: int|
                    0 <= k < i ==> (#[trigger] mapping@[k]).0 == k + 1 && mapping@[k].1@
                        == self.actor_registry().names()[k],
            decreases n - i,
        {
            let id = ShortTypeId::new((i + 1) as u16).unwrap();
            let name = self.actor_registry.get_name(id).unwrap();
            mapping.push((id.as_u16(), name.clone()));
            i += 1;
        }
        mapping
    }

    /// The name of an actor class or actor trait by its type id, if it has one.
    pub fn get_actor_name(&self, type_id: ShortTypeId) -> (r: Option<&String>)
        ensures
            r is Some <==> type_id@ <= self.actor_registry().names().len(),
            r matches Some(s) ==> s@ == self.actor_registry().names()[type_id@ - 1],
    {
        self.actor_registry.get_name(type_id)
    }
}

} // verus!
