use super::model::{bin_for_size, swap_removed, SlotView, StoreModel};
use super::slot_map::SlotIndices;
use crate::id::RawID;
use vstd::prelude::*;

verus! {

/// Whether a slot still waits for the broadcast: it lies in the bin `b`
/// that is being walked, from `slot` on and before `end`, or among the
/// first slots of a later bin, as many as that bin had at the start.
pub open spec fn pending(lens: Seq<int>, b: int, slot: int, end: int, e: SlotIndices) -> bool {
    let pb = e.spec_bin() as int;
    let ps = e.spec_slot() as int;
    (pb == b && slot <= ps < end) || (b < pb < lens.len() && ps < lens[pb])
}

/// The walk is within the store, and the later bins still begin with the slots they had.
pub open spec fn walk_shape(
    m0: StoreModel,
    m: StoreModel,
    lens: Seq<int>,
    b: int,
    slot: int,
    end: int,
) -> bool {
    &&& m0.inv((-1, -1))
    &&& m.inv((-1, -1))
    &&& lens.len() == m0.arena.len()
    &&& forall|i: int| 0 <= i < lens.len() ==> #[trigger] lens[i] == m0.arena[i].len()
    &&& m.arena.len() >= m0.arena.len()
    &&& m.entries.len() == m0.entries.len()
    &&& m.base == m0.base
    &&& 0 <= b < lens.len()
    &&& 0 <= slot <= end <= m.arena[b].len()
    &&& forall|b2: int, s2: int|
        b < b2 < lens.len() && 0 <= s2 < lens[b2] ==> #[trigger] m.has_slot(b2, s2) && m.arena[b2][s2]
            == m0.arena[b2][s2]
}

/// Every delivery went to an instance of the start, which waits no more.
pub open spec fn walk_delivered(
    m0: StoreModel,
    m: StoreModel,
    delivered: Seq<RawID>,
    lens: Seq<int>,
    b: int,
    slot: int,
    end: int,
) -> bool {
    forall|i: int|
        0 <= i < delivered.len() ==> {
            let d = #[trigger] delivered[i];
            let k = d.instance_id as int;
            &&& k < m0.entries.len()
            &&& m0.entries[k].is_valid()
            &&& m0.slot_of(k).id == d
            &&& m.entries[k].is_valid() ==> !pending(lens, b, slot, end, m.entries[k])
        }
}

/// Every instance of the start has got the message or waits unchanged.
pub open spec fn walk_waiting(
    m0: StoreModel,
    m: StoreModel,
    delivered: Seq<RawID>,
    lens: Seq<int>,
    b: int,
    slot: int,
    end: int,
) -> bool {
    forall|k: int|
        0 <= k < m0.entries.len() && (#[trigger] m0.entries[k]).is_valid() ==> delivered.contains(
            m0.slot_of(k).id,
        ) || (m.entries[k].is_valid() && pending(lens, b, slot, end, m.entries[k]) && m.slot_of(k)
            == m0.slot_of(k))
}

/// No instance is new, and none has changed its id.
pub open spec fn walk_known(m0: StoreModel, m: StoreModel) -> bool {
    forall|k: int|
        0 <= k < m.entries.len() && (#[trigger] m.entries[k]).is_valid() ==> m0.entries[k].is_valid()
            && m.slot_of(k).id == m0.slot_of(k).id
}

/// What holds while a broadcast walks the bins. `m0` is the store at the
/// start, `m` the store now, `delivered` the ids that the handler has run
/// for; the walk is in bin `b` at `slot`, and `end` is the index after the
/// last slot of the bin that still waits.
pub open spec fn walking(
    m0: StoreModel,
    m: StoreModel,
    delivered: Seq<RawID>,
    lens: Seq<int>,
    b: int,
    slot: int,
    end: int,
) -> bool {
    &&& walk_shape(m0, m, lens, b, slot, end)
    &&& walk_delivered(m0, m, delivered, lens, b, slot, end)
    &&& walk_waiting(m0, m, delivered, lens, b, slot, end)
    &&& walk_known(m0, m)
    &&& delivered.no_duplicates()
}

/// The store after a handler ran on the instance in a slot and the instance
/// stayed in its slot.
pub open spec fn stayed(m: StoreModel, m2: StoreModel, b: int, slot: int) -> bool {
    &&& m2.inv((-1, -1))
    &&& m2.entries == m.entries
    &&& m2.base == m.base
    &&& m2.arena.len() == m.arena.len()
    &&& m2.arena[b].len() == m.arena[b].len()
    &&& forall|b2: int| 0 <= b2 < m.arena.len() && b2 != b ==> #[trigger] m2.arena[b2] == m.arena[b2]
    &&& forall|s2: int|
        0 <= s2 < m.arena[b].len() && s2 != slot ==> #[trigger] m2.arena[b][s2] == m.arena[b][s2]
    &&& m2.arena[b][slot].id == m.arena[b][slot].id
}

/// The store after a handler ran on the instance in a slot and the instance
/// left its slot: it died, or it was placed anew in another bin.
pub open spec fn left(m: StoreModel, m2: StoreModel, lens: Seq<int>, b: int, slot: int) -> bool {
    let k0 = m.arena[b][slot].id.instance_id as int;
    let last = m.arena[b].len() - 1;
    let kl = m.arena[b][last].id.instance_id as int;
    &&& m2.inv((-1, -1))
    &&& m2.entries.len() == m.entries.len()
    &&& m2.base == m.base
    &&& m2.arena.len() >= m.arena.len()
    &&& m2.arena[b] == swap_removed(m.arena[b], slot)
    // every other bin begins with the slots it had
    &&& forall|b2: int, s2: int|
        b2 != b && #[trigger] m.has_slot(b2, s2) ==> m2.has_slot(b2, s2) && m2.arena[b2][s2]
            == m.arena[b2][s2]
    &&& forall|k: int|
        0 <= k < m.entries.len() && k != k0 && !(slot < last && k == kl) ==> #[trigger] m2.entries[k]
            == m.entries[k]
    &&& slot < last ==> m2.entries[kl].spec_bin() == b && m2.entries[kl].spec_slot() == slot
    // the instance that left has no slot, or one that does not wait
    &&& m2.entries[k0].is_valid() ==> {
        let e = m2.entries[k0];
        &&& e.spec_bin() != b
        &&& b < e.spec_bin() < lens.len() ==> e.spec_slot() >= lens[e.spec_bin() as int]
        &&& m2.slot_of(k0).id == m.arena[b][slot].id
    }
}

/// The slot that is walked holds an instance of the start that has not got the message.
pub proof fn lemma_walked_slot(
    m0: StoreModel,
    m: StoreModel,
    delivered: Seq<RawID>,
    lens: Seq<int>,
    b: int,
    slot: int,
    end: int,
)
    requires
        walking(m0, m, delivered, lens, b, slot, end),
        slot < end,
    ensures
        m.has_slot(b, slot),
        ({
            let x = m.arena[b][slot];
            let k0 = x.id.instance_id as int;
            &&& 0 <= k0 < m.entries.len()
            &&& m.entries[k0].is_valid()
            &&& m.entries[k0].spec_bin() == b
            &&& m.entries[k0].spec_slot() == slot
            &&& m0.entries[k0].is_valid()
            &&& m0.slot_of(k0).id == x.id
            &&& !delivered.contains(x.id)
            &&& delivered.push(x.id).no_duplicates()
        }),
{
    let none = (-1int, -1int);
    let x = m.arena[b][slot];
    let k0 = x.id.instance_id as int;
    assert(m.has_slot(b, slot));
    assert(m.slot_ok(b, slot, none));
    assert(m.entries[k0].is_valid());
    assert(pending(lens, b, slot, end, m.entries[k0]));
    if delivered.contains(x.id) {
        let i = choose|i: int| 0 <= i < delivered.len() && delivered[i] == x.id;
        assert(delivered[i] == x.id);
    }
    let d2 = delivered.push(x.id);
    assert forall|i: int, j: int| 0 <= i < d2.len() && 0 <= j < d2.len() && i != j implies d2[i]
        != d2[j] by {
        if i < delivered.len() && j < delivered.len() {
        } else if i < delivered.len() {
            assert(delivered[i] == d2[i]);
            assert(delivered.contains(d2[i]));
        } else {
            assert(delivered[j] == d2[j]);
            assert(delivered.contains(d2[j]));
        }
    }
}

/// A step of the walk after which the instance is still in its slot: the walk goes on to the next slot.
pub proof fn lemma_step_stayed(
    m0: StoreModel,
    m: StoreModel,
    m2: StoreModel,
    delivered: Seq<RawID>,
    lens: Seq<int>,
    b: int,
    slot: int,
    end: int,
)
    requires
        walking(m0, m, delivered, lens, b, slot, end),
        slot < end,
        stayed(m, m2, b, slot),
    ensures
        walking(m0, m2, delivered.push(m.arena[b][slot].id), lens, b, slot + 1, end),
{
    let none = (-1int, -1int);
    let x = m.arena[b][slot];
    let k0 = x.id.instance_id as int;
    let d2 = delivered.push(x.id);
    lemma_walked_slot(m0, m, delivered, lens, b, slot, end);
    assert forall|b2: int, s2: int| b < b2 < lens.len() && 0 <= s2 < lens[b2] implies #[trigger] m2.has_slot(
        b2,
        s2,
    ) && m2.arena[b2][s2] == m0.arena[b2][s2] by {
        assert(m.has_slot(b2, s2));
        assert(m2.arena[b2] == m.arena[b2]);
    }
    assert(walk_shape(m0, m2, lens, b, slot + 1, end));
    assert forall|i: int| 0 <= i < d2.len() implies ({
        let d = #[trigger] d2[i];
        let k = d.instance_id as int;
        &&& k < m0.entries.len()
        &&& m0.entries[k].is_valid()
        &&& m0.slot_of(k).id == d
        &&& m2.entries[k].is_valid() ==> !pending(lens, b, slot + 1, end, m2.entries[k])
    }) by {
        if i < delivered.len() {
            assert(d2[i] == delivered[i]);
        }
    }
    assert forall|k: int|
        0 <= k < m0.entries.len() && (#[trigger] m0.entries[k]).is_valid() implies d2.contains(
        m0.slot_of(k).id,
    ) || (m2.entries[k].is_valid() && pending(lens, b, slot + 1, end, m2.entries[k]) && m2.slot_of(
        k,
    ) == m0.slot_of(k)) by {
        if k == k0 {
            assert(d2[delivered.len() as int] == x.id);
        } else if delivered.contains(m0.slot_of(k).id) {
            let i = choose|i: int| 0 <= i < delivered.len() && delivered[i] == m0.slot_of(k).id;
            assert(d2[i] == m0.slot_of(k).id);
        } else {
            let e = m.entries[k];
            assert(m.entry_ok(k));
            assert(m.slot_ok(e.spec_bin() as int, e.spec_slot() as int, none));
            if e.spec_bin() != b {
                assert(m2.arena[e.spec_bin() as int] == m.arena[e.spec_bin() as int]);
            } else {
                assert(m2.arena[b][e.spec_slot() as int] == m.arena[b][e.spec_slot() as int]);
            }
        }
    }
    assert forall|k: int|
        0 <= k < m2.entries.len() && (#[trigger] m2.entries[k]).is_valid() implies m0.entries[k].is_valid()
        && m2.slot_of(k).id == m0.slot_of(k).id by {
        let e = m.entries[k];
        assert(m.entry_ok(k));
        if e.spec_bin() != b {
            assert(m2.arena[e.spec_bin() as int] == m.arena[e.spec_bin() as int]);
        } else if e.spec_slot() != slot {
            assert(m2.arena[b][e.spec_slot() as int] == m.arena[b][e.spec_slot() as int]);
        }
    }
}

/// A step of the walk after which the instance has left its slot. Where
/// the bin is now shorter than the part that waited, an instance that waits
/// has moved into the slot, and the walk stays; else it goes on.
pub proof fn lemma_step_left(
    m0: StoreModel,
    m: StoreModel,
    m2: StoreModel,
    delivered: Seq<RawID>,
    lens: Seq<int>,
    b: int,
    slot: int,
    end: int,
)
    requires
        walking(m0, m, delivered, lens, b, slot, end),
        slot < end,
        left(m, m2, lens, b, slot),
    ensures
        m2.arena[b].len() < end ==> walking(
            m0,
            m2,
            delivered.push(m.arena[b][slot].id),
            lens,
            b,
            slot,
            end - 1,
        ),
        m2.arena[b].len() >= end ==> walking(
            m0,
            m2,
            delivered.push(m.arena[b][slot].id),
            lens,
            b,
            slot + 1,
            end,
        ),
{
    let none = (-1int, -1int);
    let x = m.arena[b][slot];
    let k0 = x.id.instance_id as int;
    let last = m.arena[b].len() - 1;
    let kl = m.arena[b][last].id.instance_id as int;
    let d2 = delivered.push(x.id);
    let stay = m2.arena[b].len() < end;
    let slot2 = if stay {
        slot
    } else {
        slot + 1
    };
    let end2 = if stay {
        end - 1
    } else {
        end
    };
    lemma_walked_slot(m0, m, delivered, lens, b, slot, end);
    assert(m.has_slot(b, last));
    assert(m.slot_ok(b, last, none));
    assert(m.slot_ok(b, slot, none));
    if slot < last {
        m.lemma_ids_differ(none, b, slot, b, last);
    }
    assert(m2.arena[b].len() == last);
    assert forall|b2: int, s2: int| b < b2 < lens.len() && 0 <= s2 < lens[b2] implies #[trigger] m2.has_slot(
        b2,
        s2,
    ) && m2.arena[b2][s2] == m0.arena[b2][s2] by {
        assert(m.has_slot(b2, s2));
    }
    assert(walk_shape(m0, m2, lens, b, slot2, end2));
    // where an entry that is neither of the two leads
    assert forall|k: int|
        0 <= k < m.entries.len() && (#[trigger] m.entries[k]).is_valid() && k != k0 && !(slot < last
            && k == kl) implies m2.entries[k] == m.entries[k] && m2.slot_of(k) == m.slot_of(k) && !(
    m.entries[k].spec_bin() == b && (m.entries[k].spec_slot() == slot || m.entries[k].spec_slot()
        == last)) by {
        let e = m.entries[k];
        assert(m.entry_ok(k));
        assert(m.has_slot(e.spec_bin() as int, e.spec_slot() as int));
        assert(m2.entries[k] == m.entries[k]);
        if e.spec_bin() == b {
            assert(e.spec_slot() != slot);
            assert(e.spec_slot() != last);
        }
    }
    assert forall|i: int| 0 <= i < d2.len() implies ({
        let d = #[trigger] d2[i];
        let k = d.instance_id as int;
        &&& k < m0.entries.len()
        &&& m0.entries[k].is_valid()
        &&& m0.slot_of(k).id == d
        &&& m2.entries[k].is_valid() ==> !pending(lens, b, slot2, end2, m2.entries[k])
    }) by {
        let k = d2[i].instance_id as int;
        if i < delivered.len() {
            assert(d2[i] == delivered[i]);
            assert(delivered.contains(d2[i]));
            assert(k != k0);
            if slot < last && k == kl {
                // it was at the end of the bin and did not wait, so the walk goes on
                assert(m.entries[kl].is_valid());
                assert(!pending(lens, b, slot, end, m.entries[kl]));
            } else if m2.entries[k].is_valid() {
                if m.entries[k].is_valid() {
                } else {
                    assert(m2.entries[k] == m.entries[k]);
                }
            }
        }
    }
    assert forall|k: int|
        0 <= k < m0.entries.len() && (#[trigger] m0.entries[k]).is_valid() implies d2.contains(
        m0.slot_of(k).id,
    ) || (m2.entries[k].is_valid() && pending(lens, b, slot2, end2, m2.entries[k]) && m2.slot_of(
        k,
    ) == m0.slot_of(k)) by {
        if k == k0 {
            assert(d2[delivered.len() as int] == x.id);
        } else if delivered.contains(m0.slot_of(k).id) {
            let i = choose|i: int| 0 <= i < delivered.len() && delivered[i] == m0.slot_of(k).id;
            assert(d2[i] == m0.slot_of(k).id);
        } else {
            assert(m.entries[k].is_valid() && pending(lens, b, slot, end, m.entries[k]));
            if slot < last && k == kl {
                assert(m2.arena[b][slot] == m.arena[b][last]);
            } else {
            }
        }
    }
    assert forall|k: int|
        0 <= k < m2.entries.len() && (#[trigger] m2.entries[k]).is_valid() implies m0.entries[k].is_valid()
        && m2.slot_of(k).id == m0.slot_of(k).id by {
        if k == k0 {
        } else if slot < last && k == kl {
            assert(m2.arena[b][slot] == m.arena[b][last]);
            assert(m.entries[kl].is_valid());
        } else {
            if !m.entries[k].is_valid() {
                assert(m2.entries[k] == m.entries[k]);
            }
        }
    }
    assert(walk_delivered(m0, m2, d2, lens, b, slot2, end2));
    assert(walk_waiting(m0, m2, d2, lens, b, slot2, end2));
    assert(walk_known(m0, m2));
}

/// Whether an instance with this very id is alive.
pub open spec fn holds(m: StoreModel, id: RawID) -> bool {
    &&& (id.instance_id as int) < m.entries.len()
    &&& m.entries[id.instance_id as int].is_valid()
    &&& m.slot_of(id.instance_id as int).id == id
}

/// What a broadcast has done when it ends. `m0` is the store at the start,
/// `m` the store at the end, `delivered` the ids for which the handler ran,
/// in the order in which it ran.
///
/// The handler ran only for instances that were alive at the start, and at
/// most once for each. Where `complete`, it ran for each of them. No
/// instance is new and none has changed its id; an instance for which the
/// handler did not run is as it was.
pub open spec fn broadcast_result(
    m0: StoreModel,
    m: StoreModel,
    delivered: Seq<RawID>,
    complete: bool,
) -> bool {
    &&& m.inv((-1, -1))
    &&& m.entries.len() == m0.entries.len()
    &&& m.base == m0.base
    &&& delivered.no_duplicates()
    &&& forall|i: int| 0 <= i < delivered.len() ==> holds(m0, #[trigger] delivered[i])
    &&& complete ==> forall|k: int|
        0 <= k < m0.entries.len() && (#[trigger] m0.entries[k]).is_valid() ==> delivered.contains(
            m0.slot_of(k).id,
        )
    &&& forall|k: int|
        0 <= k < m.entries.len() && (#[trigger] m.entries[k]).is_valid() ==> m0.entries[k].is_valid()
            && m.slot_of(k).id == m0.slot_of(k).id
    &&& forall|k: int|
        0 <= k < m0.entries.len() && (#[trigger] m0.entries[k]).is_valid() && !delivered.contains(
            m0.slot_of(k).id,
        ) ==> m.entries[k].is_valid() && m.slot_of(k) == m0.slot_of(k)
}

/// A store without bins has no instance, so a broadcast in it is done at once.
pub proof fn lemma_walk_nothing(m0: StoreModel)
    requires
        m0.inv((-1, -1)),
        m0.arena.len() == 0,
    ensures
        broadcast_result(m0, m0, Seq::<RawID>::empty(), true),
{
    assert forall|k: int| 0 <= k < m0.entries.len() implies !(#[trigger] m0.entries[k]).is_valid() by {
        if m0.entries[k].is_valid() {
            assert(m0.entry_ok(k));
        }
    }
}

/// At the start every instance waits.
pub proof fn lemma_walk_start(m0: StoreModel, lens: Seq<int>)
    requires
        m0.inv((-1, -1)),
        lens.len() == m0.arena.len(),
        forall|i: int| 0 <= i < lens.len() ==> #[trigger] lens[i] == m0.arena[i].len(),
        m0.arena.len() > 0,
    ensures
        walking(m0, m0, Seq::<RawID>::empty(), lens, 0, 0, lens[0]),
{
    let d = Seq::<RawID>::empty();
    assert(walk_shape(m0, m0, lens, 0, 0, lens[0]));
    assert(walk_delivered(m0, m0, d, lens, 0, 0, lens[0]));
    assert forall|k: int|
        0 <= k < m0.entries.len() && (#[trigger] m0.entries[k]).is_valid() implies pending(
        lens,
        0,
        0,
        lens[0],
        m0.entries[k],
    ) by {
        assert(m0.entry_ok(k));
    }
    assert(walk_waiting(m0, m0, d, lens, 0, 0, lens[0]));
    assert(walk_known(m0, m0));
}

/// When a bin is done, the walk goes on at the start of the next.
pub proof fn lemma_walk_next_bin(
    m0: StoreModel,
    m: StoreModel,
    delivered: Seq<RawID>,
    lens: Seq<int>,
    b: int,
    end: int,
)
    requires
        walking(m0, m, delivered, lens, b, end, end),
        b + 1 < lens.len(),
    ensures
        walking(m0, m, delivered, lens, b + 1, 0, lens[b + 1]),
{
    if lens[b + 1] > 0 {
        assert(m.has_slot(b + 1, lens[b + 1] - 1));
    }
    assert(lens[b + 1] == m0.arena[b + 1].len());
    assert(walk_shape(m0, m, lens, b + 1, 0, lens[b + 1]));
    assert forall|e: SlotIndices| #[trigger]
        pending(lens, b, end, end, e) == pending(lens, b + 1, 0, lens[b + 1], e) by {
    }
    assert(walk_delivered(m0, m, delivered, lens, b + 1, 0, lens[b + 1]));
    assert(walk_waiting(m0, m, delivered, lens, b + 1, 0, lens[b + 1]));
}

/// What the walk has done wherever it stops; it is complete once the last bin is done.
pub proof fn lemma_walk_result(
    m0: StoreModel,
    m: StoreModel,
    delivered: Seq<RawID>,
    lens: Seq<int>,
    b: int,
    slot: int,
    end: int,
)
    requires
        walking(m0, m, delivered, lens, b, slot, end),
    ensures
        broadcast_result(m0, m, delivered, false),
        slot == end && b + 1 == lens.len() ==> broadcast_result(m0, m, delivered, true),
{
    assert forall|i: int| 0 <= i < delivered.len() implies holds(m0, #[trigger] delivered[i]) by {
    }
    if slot == end && b + 1 == lens.len() {
        assert forall|k: int|
            0 <= k < m0.entries.len() && (#[trigger] m0.entries[k]).is_valid() implies delivered.contains(
            m0.slot_of(k).id,
        ) by {
        }
    }
}

/// The instance stayed where its new state fits its slot.
pub proof fn lemma_stayed_in_place(m: StoreModel, b: int, slot: int, state: Seq<u8>)
    requires
        m.inv((-1, -1)),
        m.has_slot(b, slot),
        state.len() <= m.arena[b][slot].slot_size,
    ensures
        stayed(m, m.set_state(b, slot, state), b, slot),
{
    m.lemma_set_state((-1, -1), b, slot, state);
}

/// The instance stayed where it was placed anew in the bin it lay in.
pub proof fn lemma_stayed_resized(m: StoreModel, b: int, slot: int, state: Seq<u8>)
    requires
        m.inv((-1, -1)),
        m.has_slot(b, slot),
        bin_for_size(m.base, state.len()) == b,
    ensures
        stayed(m, m.set_state(b, slot, state).resize(b, slot), b, slot),
{
    let m1 = m.set_state(b, slot, state);
    m.lemma_set_state((-1, -1), b, slot, state);
    m1.lemma_resize((b, slot), b, slot);
}

/// The instance left where it died.
pub proof fn lemma_left_dead(m: StoreModel, lens: Seq<int>, b: int, slot: int, state: Seq<u8>)
    requires
        m.inv((-1, -1)),
        m.has_slot(b, slot),
    ensures
        left(m, m.set_state(b, slot, state).remove(b, slot), lens, b, slot),
{
    let none = (-1int, -1int);
    let m1 = m.set_state(b, slot, state);
    let m2 = m1.remove(b, slot);
    let last = m.arena[b].len() - 1;
    m.lemma_set_state(none, b, slot, state);
    m1.lemma_remove((b, slot), b, slot);
    m.lemma_slot_is_instance(none, b, slot);
    SlotIndices::lemma_invalid();
    SlotIndices::lemma_at(b, slot);
    assert(m.has_slot(b, last));
    assert(m.slot_ok(b, last, none));
    assert(m.slot_ok(b, slot, none));
    if slot < last {
        m.lemma_ids_differ(none, b, slot, b, last);
    }
    assert(m2.arena[b] =~= swap_removed(m.arena[b], slot));
    assert forall|b2: int, s2: int| b2 != b && #[trigger] m.has_slot(b2, s2) implies m2.has_slot(
        b2,
        s2,
    ) && m2.arena[b2][s2] == m.arena[b2][s2] by {
        assert(m2.arena[b2] == m1.arena[b2]);
    }
}

/// The instance left where it was placed anew in another bin: it is at
/// the end of that bin, behind the slots that wait.
pub proof fn lemma_left_resized(
    m0: StoreModel,
    m: StoreModel,
    lens: Seq<int>,
    b: int,
    slot: int,
    end: int,
    state: Seq<u8>,
)
    requires
        walk_shape(m0, m, lens, b, slot, end),
        m.has_slot(b, slot),
        bin_for_size(m.base, state.len()) != b,
        bin_for_size(m.base, state.len()) <= 64,
    ensures
        left(m, m.set_state(b, slot, state).resize(b, slot), lens, b, slot),
{
    let none = (-1int, -1int);
    let m1 = m.set_state(b, slot, state);
    let x1 = m1.arena[b][slot];
    let placed = SlotView { slot_size: x1.state.len(), ..x1 };
    let t = bin_for_size(m.base, state.len()) as int;
    let mp = m1.push(placed);
    let m2 = m1.resize(b, slot);
    let last = m.arena[b].len() - 1;
    let p = if t < m1.arena.len() {
        m1.arena[t].len() as int
    } else {
        0
    };
    m.lemma_set_state(none, b, slot, state);
    m1.lemma_resize((b, slot), b, slot);
    m1.lemma_push_shape(placed);
    assert(mp.has_slot(b, slot));
    mp.lemma_swap_remove_shape(b, slot);
    m.lemma_slot_is_instance(none, b, slot);
    assert(m.has_slot(b, last));
    assert(m.slot_ok(b, last, none));
    assert(m.slot_ok(b, slot, none));
    if t < m1.arena.len() {
        super::model::lemma_total_update(m1.arena, t, m1.arena[t]);
    }
    super::slot_map::lemma_valid_count_bound(m1.entries);
    SlotIndices::lemma_at(t, p);
    SlotIndices::lemma_at(b, slot);
    if slot < last {
        m.lemma_ids_differ(none, b, slot, b, last);
    }
    assert(mp.arena[b] == m1.arena[b]);
    assert(m2.arena[b] =~= swap_removed(m.arena[b], slot));
    assert forall|b2: int, s2: int| b2 != b && #[trigger] m.has_slot(b2, s2) implies m2.has_slot(
        b2,
        s2,
    ) && m2.arena[b2][s2] == m.arena[b2][s2] by {
        assert(m1.has_slot(b2, s2));
        assert(mp.has_slot(b2, s2));
        assert(m2.arena[b2] == mp.arena[b2]);
    }
    assert(m2.arena[t] == mp.arena[t]);
    if b < t < lens.len() {
        if lens[t] > 0 {
            assert(m.has_slot(t, lens[t] - 1));
        }
    }
}

} // verus!
