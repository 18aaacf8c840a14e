use super::slot_map::{
    lemma_valid_count_bound, lemma_valid_count_update, valid_count, SlotIndices,
};
use crate::id::RawID;
use crate::world::next_version;
use vstd::prelude::*;

verus! {

/// What a slot holds.
pub struct SlotView {
    /// The id of the instance.
    pub id: RawID,
    /// The state of the instance.
    pub state: Seq<u8>,
    /// The size that the instance had when it was placed.
    pub slot_size: nat,
}

/// The bin for instances of a size: bin 0 takes sizes up to `base`, and each
/// further bin takes sizes up to twice those of the bin before.
pub open spec fn bin_for_size(base: nat, size: nat) -> nat
    decreases
            (if size > base {
                size - base
            } else {
                0
            }),
{
    if base == 0 || size <= base {
        0
    } else {
        1 + bin_for_size(2 * base, size)
    }
}

/// The number of slots in all bins.
pub open spec fn total(arena: Seq<Seq<SlotView>>) -> nat
    decreases arena.len(),
{
    if arena.len() == 0 {
        0
    } else {
        total(arena.drop_last()) + arena.last().len()
    }
}

/// A bin after the slot `s` was vacated: the last slot's instance has moved
/// into it, unless `s` was the last.
pub open spec fn swap_removed(bin: Seq<SlotView>, s: int) -> Seq<SlotView> {
    bin.update(s, bin.last()).drop_last()
}

/// The arena with empty bins added up to bin `n - 1`.
pub open spec fn padded(arena: Seq<Seq<SlotView>>, n: int) -> Seq<Seq<SlotView>> {
    if n <= arena.len() {
        arena
    } else {
        Seq::new(
            n as nat,
            |b: int|
                if b < arena.len() {
                    arena[b]
                } else {
                    Seq::empty()
                },
        )
    }
}

/// Replacing a bin changes the number of slots by the difference of the
/// lengths, and no bin has more slots than there are in all.
pub proof fn lemma_total_update(arena: Seq<Seq<SlotView>>, b: int, bin: Seq<SlotView>)
    requires
        0 <= b < arena.len(),
    ensures
        total(arena.update(b, bin)) + arena[b].len() == total(arena) + bin.len(),
        arena[b].len() <= total(arena),
    decreases arena.len(),
{
    let u = arena.update(b, bin);
    if b == arena.len() - 1 {
        assert(u.drop_last() =~= arena.drop_last());
    } else {
        assert(u.drop_last() =~= arena.drop_last().update(b, bin));
        lemma_total_update(arena.drop_last(), b, bin);
    }
}

/// Empty bins add no slots.
pub proof fn lemma_total_padded(arena: Seq<Seq<SlotView>>, n: int)
    ensures
        total(padded(arena, n)) == total(arena),
    decreases n - arena.len(),
{
    if n > arena.len() {
        let p = padded(arena, n);
        assert(p.drop_last() =~= padded(arena, n - 1));
        lemma_total_padded(arena, n - 1);
    }
}

/// The state of an instance store: the bins with their slots, the slot map,
/// and the count of instances.
pub struct StoreModel {
    /// The bins with their slots.
    pub arena: Seq<Seq<SlotView>>,
    /// The slot map's entry for each known instance id.
    pub entries: Seq<SlotIndices>,
    /// The version under which each known instance id is in use, or will next be.
    pub versions: Seq<u8>,
    /// The number that the store keeps of its live instances.
    pub count: nat,
    /// The largest size that bin 0 takes.
    pub base: nat,
}

impl StoreModel {
    /// Whether bin `b` has a slot `s`.
    pub open spec fn has_slot(self, b: int, s: int) -> bool {
        0 <= b < self.arena.len() && 0 <= s < self.arena[b].len()
    }

    /// What holds of the slot `s` of bin `b`: the slot map leads from the id
    /// of its instance back to it, under the instance's version, and the
    /// instance lies in the bin for the size it was placed with. Unless the
    /// slot is the `hole`, the state is also no longer than that size.
    pub open spec fn slot_ok(self, b: int, s: int, hole: (int, int)) -> bool {
        let x = self.arena[b][s];
        let k = x.id.instance_id as int;
        &&& k < self.entries.len()
        &&& self.entries[k].spec_bin() == b
        &&& self.entries[k].spec_slot() == s
        &&& self.versions[k] == x.id.version
        &&& b == bin_for_size(self.base, x.slot_size)
        &&& hole != (b, s) ==> x.state.len() <= x.slot_size
    }

    /// What holds of the entry of the id `k` where it is valid: it leads to a
    /// slot whose instance has this id.
    pub open spec fn entry_ok(self, k: int) -> bool {
        let e = self.entries[k];
        &&& self.has_slot(e.spec_bin() as int, e.spec_slot() as int)
        &&& self.arena[e.spec_bin() as int][e.spec_slot() as int].id.instance_id == k
    }

    /// The invariant of a store, but that the instance in slot `hole.1` of
    /// bin `hole.0` may have outgrown its slot: every instance is found by
    /// its id and version through one entry of the slot map, every valid
    /// entry leads to an instance, and the count is the number of both.
    pub open spec fn inv(self, hole: (int, int)) -> bool {
        &&& self.entries.len() == self.versions.len()
        &&& self.entries.len() <= 0xFFFF_FFFF
        &&& self.base >= 1
        &&& self.arena.len() <= 65
        &&& self.count == total(self.arena)
        &&& self.count == valid_count(self.entries)
        &&& forall|b: int, s: int| #[trigger]
            self.has_slot(b, s) ==> self.slot_ok(b, s, hole)
        &&& forall|k: int|
            0 <= k < self.entries.len() && (#[trigger] self.entries[k]).is_valid()
                ==> self.entry_ok(k)
    }

    /// Whether an instance with this instance id and version is alive.
    pub open spec fn is_live(self, instance_id: int, version: u8) -> bool {
        &&& 0 <= instance_id < self.entries.len()
        &&& self.versions[instance_id] == version
        &&& self.entries[instance_id].is_valid()
    }

    /// The slot that the entry of a live instance id leads to.
    pub open spec fn slot_of(self, k: int) -> SlotView {
        self.arena[self.entries[k].spec_bin() as int][self.entries[k].spec_slot() as int]
    }

    /// The live instances by instance id.
    pub open spec fn instances(self) -> Map<int, SlotView> {
        Map::new(
            |k: int| 0 <= k < self.entries.len() && self.entries[k].is_valid(),
            |k: int| self.slot_of(k),
        )
    }

    /// The state after the state of the instance in a slot was replaced.
    pub open spec fn set_state(self, b: int, s: int, state: Seq<u8>) -> StoreModel {
        StoreModel {
            arena: self.arena.update(
                b,
                self.arena[b].update(s, SlotView { state, ..self.arena[b][s] }),
            ),
            ..self
        }
    }

    /// The state after an instance was appended to the bin for its size and
    /// its entry set to that slot.
    pub open spec fn push(self, x: SlotView) -> StoreModel {
        let t = bin_for_size(self.base, x.slot_size) as int;
        let wide = padded(self.arena, t + 1);
        StoreModel {
            arena: wide.update(t, wide[t].push(x)),
            entries: self.entries.update(
                x.id.instance_id as int,
                SlotIndices::at(t, wide[t].len() as int),
            ),
            ..self
        }
    }

    /// The state after a slot was vacated and, where an instance moved into
    /// it from the end of the bin, that instance's entry was set to the slot.
    pub open spec fn swap_remove(self, b: int, s: int) -> StoreModel {
        let bin = self.arena[b];
        StoreModel {
            arena: self.arena.update(b, swap_removed(bin, s)),
            entries: if s == bin.len() - 1 {
                self.entries
            } else {
                self.entries.update(bin.last().id.instance_id as int, SlotIndices::at(b, s))
            },
            ..self
        }
    }

    /// The state after a new instance was added.
    pub open spec fn add(self, x: SlotView) -> StoreModel {
        StoreModel { count: self.count + 1, ..self.push(x) }
    }

    /// The state after the instance in a slot was placed anew by the size of
    /// its state: appended to the bin for that size, then taken out of its
    /// old slot. Where that is the bin it lies in, it comes back to its slot.
    pub open spec fn resize(self, b: int, s: int) -> StoreModel {
        let x = self.arena[b][s];
        let placed = SlotView { slot_size: x.state.len(), ..x };
        if bin_for_size(self.base, placed.slot_size) == b {
            StoreModel { arena: self.arena.update(b, self.arena[b].update(s, placed)), ..self }
        } else {
            self.push(placed).swap_remove(b, s)
        }
    }

    /// The state after the instance in a slot died: its slot is vacated, its
    /// id has no instance and a new version, and the count is one less.
    pub open spec fn remove(self, b: int, s: int) -> StoreModel {
        let x = self.arena[b][s];
        let k = x.id.instance_id as int;
        let m = self.swap_remove(b, s);
        StoreModel {
            entries: m.entries.update(k, SlotIndices::spec_invalid()),
            versions: m.versions.update(k, next_version(x.id.version)),
            count: (m.count - 1) as nat,
            ..m
        }
    }

    /// The count of a store is the number of the slots in its bins, and the
    /// number of the valid entries of its slot map.
    pub proof fn lemma_count(self)
        requires
            self.inv((-1, -1)),
        ensures
            self.count == total(self.arena),
            self.count == valid_count(self.entries),
    {
    }

    /// Two slots hold instances of different ids.
    pub proof fn lemma_ids_differ(self, hole: (int, int), b1: int, s1: int, b2: int, s2: int)
        requires
            self.inv(hole),
            self.has_slot(b1, s1),
            self.has_slot(b2, s2),
            (b1, s1) != (b2, s2),
        ensures
            self.arena[b1][s1].id.instance_id != self.arena[b2][s2].id.instance_id,
    {
        assert(self.slot_ok(b1, s1, hole));
        assert(self.slot_ok(b2, s2, hole));
    }

    /// The instance in a slot is the instance that its id leads to: the slot
    /// map has a valid entry for its instance id, under its version, and the
    /// entry leads back to the slot.
    pub proof fn lemma_slot_is_instance(self, hole: (int, int), b: int, s: int)
        requires
            self.inv(hole),
            self.has_slot(b, s),
        ensures
            self.instances().dom().contains(self.arena[b][s].id.instance_id as int),
            self.instances()[self.arena[b][s].id.instance_id as int] == self.arena[b][s],
            self.is_live(self.arena[b][s].id.instance_id as int, self.arena[b][s].id.version),
            self.arena[b].len() <= 0xFFFF_FFFF,
            self.count >= 1,
    {
        assert(self.slot_ok(b, s, hole));
        lemma_total_update(self.arena, b, self.arena[b]);
        lemma_valid_count_bound(self.entries);
    }

    /// A live instance id leads to a slot that holds its instance.
    pub proof fn lemma_instance_has_slot(self, hole: (int, int), k: int)
        requires
            self.inv(hole),
            self.instances().dom().contains(k),
        ensures
            self.has_slot(self.entries[k].spec_bin() as int, self.entries[k].spec_slot() as int),
            self.slot_of(k).id.instance_id == k,
            self.slot_of(k).id.version == self.versions[k],
            self.entries[k].spec_bin() <= 64,
    {
        assert(self.entry_ok(k));
        assert(self.slot_ok(
            self.entries[k].spec_bin() as int,
            self.entries[k].spec_slot() as int,
            hole,
        ));
    }

    /// Replacing the state of an instance keeps the invariant, with the slot as the hole.
    pub proof fn lemma_set_state(self, hole: (int, int), b: int, s: int, state: Seq<u8>)
        requires
            self.inv(hole),
            hole == (b, s) || hole == (-1int, -1int),
            self.has_slot(b, s),
        ensures
            self.set_state(b, s, state).inv((b, s)),
            state.len() <= self.arena[b][s].slot_size ==> self.set_state(b, s, state).inv(
                (-1, -1),
            ),
            self.set_state(b, s, state).instances() == self.instances().insert(
                self.arena[b][s].id.instance_id as int,
                SlotView { state, ..self.arena[b][s] },
            ),
    {
        let m = self.set_state(b, s, state);
        assert(self.slot_ok(b, s, hole));
        lemma_total_update(self.arena, b, m.arena[b]);
        assert forall|b2: int, s2: int| #[trigger] m.has_slot(b2, s2) implies m.slot_ok(
            b2,
            s2,
            (b, s),
        ) && (state.len() <= self.arena[b][s].slot_size ==> m.slot_ok(b2, s2, (-1, -1))) by {
            assert(self.has_slot(b2, s2));
            assert(self.slot_ok(b2, s2, hole));
        }
        assert forall|k: int|
            0 <= k < m.entries.len() && (#[trigger] m.entries[k]).is_valid() implies m.entry_ok(
            k,
        ) by {
            assert(self.entry_ok(k));
        }
        let k0 = self.arena[b][s].id.instance_id as int;
        assert forall|k: int| m.instances().dom().contains(k) implies #[trigger] m.instances()[k]
            == self.instances().insert(k0, SlotView { state, ..self.arena[b][s] })[k] by {
            assert(self.entry_ok(k));
            let e = self.entries[k];
            if k != k0 {
                assert(self.slot_ok(e.spec_bin() as int, e.spec_slot() as int, hole));
            }
        }
        assert(m.instances() =~= self.instances().insert(
            k0,
            SlotView { state, ..self.arena[b][s] },
        ));
    }

    /// Where the slots are after `push`.
    pub proof fn lemma_push_shape(self, x: SlotView)
        requires
            self.arena.len() <= 65,
            bin_for_size(self.base, x.slot_size) <= 64,
        ensures
            ({
                let t = bin_for_size(self.base, x.slot_size) as int;
                let p = if t < self.arena.len() {
                    self.arena[t].len() as int
                } else {
                    0
                };
                let m = self.push(x);
                &&& m.arena.len() <= 65
                &&& m.arena.len() >= self.arena.len()
                &&& m.has_slot(t, p)
                &&& m.arena[t][p] == x
                &&& m.arena[t].len() == p + 1
                &&& m.entries == self.entries.update(x.id.instance_id as int, SlotIndices::at(t, p))
                &&& total(m.arena) == total(self.arena) + 1
                &&& forall|b: int, s: int| #[trigger]
                    self.has_slot(b, s) ==> m.has_slot(b, s) && m.arena[b][s] == self.arena[b][s]
                &&& forall|b: int, s: int| #[trigger]
                    m.has_slot(b, s) ==> self.has_slot(b, s) || (b == t && s == p)
                &&& forall|b: int|
                    0 <= b < self.arena.len() && b != t ==> #[trigger] m.arena[b] == self.arena[b]
                &&& forall|b: int|
                    self.arena.len() <= b < m.arena.len() && b != t ==> (#[trigger] m.arena[b]).len()
                        == 0
            }),
    {
        let t = bin_for_size(self.base, x.slot_size) as int;
        let wide = padded(self.arena, t + 1);
        lemma_total_padded(self.arena, t + 1);
        lemma_total_update(wide, t, wide[t].push(x));
    }

    /// Where the slots are after `swap_remove`.
    pub proof fn lemma_swap_remove_shape(self, b: int, s: int)
        requires
            self.has_slot(b, s),
        ensures
            ({
                let m = self.swap_remove(b, s);
                let last = self.arena[b].len() - 1;
                &&& m.arena.len() == self.arena.len()
                &&& m.arena[b].len() == last
                &&& total(m.arena) + 1 == total(self.arena)
                &&& forall|b2: int|
                    0 <= b2 < self.arena.len() && b2 != b ==> #[trigger] m.arena[b2]
                        == self.arena[b2]
                &&& forall|s2: int|
                    0 <= s2 < last && s2 != s ==> #[trigger] m.arena[b][s2] == self.arena[b][s2]
                &&& s < last ==> m.arena[b][s] == self.arena[b][last]
            }),
    {
        lemma_total_update(self.arena, b, swap_removed(self.arena[b], s));
    }

    /// Adding an instance under a known id that has no instance keeps the invariant.
    pub proof fn lemma_add(self, x: SlotView)
        requires
            self.inv((-1, -1)),
            (x.id.instance_id as int) < self.entries.len(),
            !self.entries[x.id.instance_id as int].is_valid(),
            self.versions[x.id.instance_id as int] == x.id.version,
            x.state.len() <= x.slot_size,
            bin_for_size(self.base, x.slot_size) <= 64,
        ensures
            self.add(x).inv((-1, -1)),
            self.add(x).instances() == self.instances().insert(x.id.instance_id as int, x),
            self.add(x).versions == self.versions,
            self.count < 0xFFFF_FFFF,
    {
        let none = (-1int, -1int);
        let k0 = x.id.instance_id as int;
        let t = bin_for_size(self.base, x.slot_size) as int;
        let p = if t < self.arena.len() {
            self.arena[t].len() as int
        } else {
            0
        };
        let m = self.add(x);
        self.lemma_push_shape(x);
        if t < self.arena.len() {
            lemma_total_update(self.arena, t, self.arena[t]);
        }
        lemma_valid_count_bound(self.entries);
        lemma_valid_count_bound(m.entries);
        SlotIndices::lemma_at(t, p);
        lemma_valid_count_update(self.entries, k0, SlotIndices::at(t, p));
        assert forall|b: int, s: int| #[trigger] m.has_slot(b, s) implies m.slot_ok(b, s, none) by {
            if !(b == t && s == p) {
                assert(self.has_slot(b, s));
                assert(self.slot_ok(b, s, none));
            }
        }
        assert forall|k: int|
            0 <= k < m.entries.len() && (#[trigger] m.entries[k]).is_valid() implies m.entry_ok(
            k,
        ) by {
            if k != k0 {
                assert(self.entry_ok(k));
                assert(self.has_slot(
                    self.entries[k].spec_bin() as int,
                    self.entries[k].spec_slot() as int,
                ));
            }
        }
        assert forall|k: int| m.instances().dom().contains(k) implies #[trigger] m.instances()[k]
            == self.instances().insert(k0, x)[k] by {
            if k != k0 {
                assert(self.entry_ok(k));
                assert(self.has_slot(
                    self.entries[k].spec_bin() as int,
                    self.entries[k].spec_slot() as int,
                ));
            }
        }
        assert(m.instances() =~= self.instances().insert(k0, x));
    }

    /// Taking an instance out keeps the invariant.
    pub proof fn lemma_remove(self, hole: (int, int), b: int, s: int)
        requires
            self.inv(hole),
            hole == (b, s) || hole == (-1int, -1int),
            self.has_slot(b, s),
        ensures
            self.remove(b, s).inv((-1, -1)),
            self.remove(b, s).instances() == self.instances().remove(
                self.arena[b][s].id.instance_id as int,
            ),
            self.remove(b, s).versions == self.versions.update(
                self.arena[b][s].id.instance_id as int,
                next_version(self.arena[b][s].id.version),
            ),
            self.remove(b, s).count + 1 == self.count,
            self.remove(b, s).arena.len() == self.arena.len(),
            self.remove(b, s).arena[b] == swap_removed(self.arena[b], s),
            forall|b2: int|
                0 <= b2 < self.arena.len() && b2 != b ==> #[trigger] self.remove(b, s).arena[b2]
                    == self.arena[b2],
    {
        let none = (-1int, -1int);
        let x = self.arena[b][s];
        let k0 = x.id.instance_id as int;
        let last = self.arena[b].len() - 1;
        let moved = self.arena[b][last];
        let kl = moved.id.instance_id as int;
        let m1 = self.swap_remove(b, s);
        let m = self.remove(b, s);
        self.lemma_swap_remove_shape(b, s);
        self.lemma_slot_is_instance(hole, b, s);
        assert(self.slot_ok(b, s, hole));
        assert(self.has_slot(b, last));
        assert(self.slot_ok(b, last, hole));
        SlotIndices::lemma_at(b, s);
        if s < last {
            self.lemma_ids_differ(hole, b, s, b, last);
            lemma_valid_count_update(self.entries, kl, SlotIndices::at(b, s));
        }
        lemma_valid_count_update(m1.entries, k0, SlotIndices::spec_invalid());
        SlotIndices::lemma_invalid();
        assert forall|b2: int, s2: int| #[trigger] m.has_slot(b2, s2) implies m.slot_ok(
            b2,
            s2,
            none,
        ) by {
            if b2 == b && s2 == s {
                assert(m.arena[b][s] == moved);
            } else {
                assert(self.has_slot(b2, s2));
                assert(self.slot_ok(b2, s2, hole));
                assert(m.arena[b2][s2] == self.arena[b2][s2]);
                self.lemma_ids_differ(hole, b2, s2, b, s);
                self.lemma_ids_differ(hole, b2, s2, b, last);
            }
        }
        assert forall|k: int|
            0 <= k < m.entries.len() && (#[trigger] m.entries[k]).is_valid() implies m.entry_ok(
            k,
        ) by {
            if s < last && k == kl {
                assert(m.arena[b][s] == moved);
            } else {
                assert(k != k0);
                assert(self.entries[k] == m.entries[k]);
                assert(self.entry_ok(k));
                let e = self.entries[k];
                assert(self.slot_ok(e.spec_bin() as int, e.spec_slot() as int, hole));
            }
        }
        assert forall|k: int| m.instances().dom().contains(k) implies #[trigger] m.instances()[k]
            == self.instances().remove(k0)[k] by {
            if s < last && k == kl {
                assert(m.arena[b][s] == moved);
            } else {
                assert(k != k0);
                assert(self.entries[k] == m.entries[k]);
                assert(self.entry_ok(k));
                let e = self.entries[k];
                assert(self.slot_ok(e.spec_bin() as int, e.spec_slot() as int, hole));
            }
        }
        assert forall|k: int| self.instances().remove(k0).dom().contains(k) implies m.instances().dom().contains(
            k,
        ) by {
            if s < last && k == kl {
            } else {
                assert(self.entries[k] == m.entries[k]);
            }
        }
        assert(m.instances() =~= self.instances().remove(k0));
    }

    /// Placing an instance anew by the size of its state restores the
    /// invariant where the instance had outgrown its slot.
    pub proof fn lemma_resize(self, hole: (int, int), b: int, s: int)
        requires
            self.inv(hole),
            hole == (b, s) || hole == (-1int, -1int),
            self.has_slot(b, s),
            bin_for_size(self.base, self.arena[b][s].state.len()) <= 64,
        ensures
            self.resize(b, s).inv((-1, -1)),
            self.resize(b, s).instances() == self.instances().insert(
                self.arena[b][s].id.instance_id as int,
                SlotView { slot_size: self.arena[b][s].state.len(), ..self.arena[b][s] },
            ),
            self.resize(b, s).versions == self.versions,
            self.resize(b, s).count == self.count,
    {
        let none = (-1int, -1int);
        let x = self.arena[b][s];
        let placed = SlotView { slot_size: x.state.len(), ..x };
        let k0 = x.id.instance_id as int;
        let t = bin_for_size(self.base, placed.slot_size) as int;
        let m = self.resize(b, s);
        self.lemma_slot_is_instance(hole, b, s);
        assert(self.slot_ok(b, s, hole));
        if t == b {
            lemma_total_update(self.arena, b, m.arena[b]);
            assert forall|b2: int, s2: int| #[trigger] m.has_slot(b2, s2) implies m.slot_ok(
                b2,
                s2,
                none,
            ) by {
                assert(self.has_slot(b2, s2));
                assert(self.slot_ok(b2, s2, hole));
            }
            assert forall|k: int|
                0 <= k < m.entries.len() && (#[trigger] m.entries[k]).is_valid() implies m.entry_ok(
                k,
            ) by {
                assert(self.entry_ok(k));
            }
            assert forall|k: int| m.instances().dom().contains(k) implies #[trigger] m.instances()[k]
                == self.instances().insert(k0, placed)[k] by {
                assert(self.entry_ok(k));
                let e = self.entries[k];
                if k != k0 {
                    assert(self.slot_ok(e.spec_bin() as int, e.spec_slot() as int, hole));
                }
            }
        } else {
            let m1 = self.push(placed);
            let p = if t < self.arena.len() {
                self.arena[t].len() as int
            } else {
                0
            };
            let last = self.arena[b].len() - 1;
            let moved = self.arena[b][last];
            let kl = moved.id.instance_id as int;
            self.lemma_push_shape(placed);
            assert(m1.has_slot(b, s));
            assert(m1.arena[b] == self.arena[b]);
            m1.lemma_swap_remove_shape(b, s);
            assert(self.has_slot(b, last));
            assert(self.slot_ok(b, last, hole));
            if t < self.arena.len() {
                lemma_total_update(self.arena, t, self.arena[t]);
            }
            lemma_valid_count_bound(self.entries);
            SlotIndices::lemma_at(t, p);
            SlotIndices::lemma_at(b, s);
            lemma_valid_count_update(self.entries, k0, SlotIndices::at(t, p));
            if s < last {
                self.lemma_ids_differ(hole, b, s, b, last);
                lemma_valid_count_update(m1.entries, kl, SlotIndices::at(b, s));
            }
            assert forall|b2: int, s2: int| #[trigger] m.has_slot(b2, s2) implies m.slot_ok(
                b2,
                s2,
                none,
            ) by {
                if b2 == t && s2 == p {
                    assert(m.arena[t] == m1.arena[t]);
                    assert(m.arena[t][p] == placed);
                } else if b2 == b && s2 == s {
                    assert(m.arena[b][s] == moved);
                } else {
                    assert(m1.has_slot(b2, s2));
                    assert(self.has_slot(b2, s2));
                    assert(self.slot_ok(b2, s2, hole));
                    assert(m.arena[b2][s2] == self.arena[b2][s2]);
                    self.lemma_ids_differ(hole, b2, s2, b, s);
                    self.lemma_ids_differ(hole, b2, s2, b, last);
                }
            }
            assert forall|k: int|
                0 <= k < m.entries.len() && (#[trigger] m.entries[k]).is_valid() implies m.entry_ok(
                k,
            ) by {
                if k == k0 {
                    assert(m.arena[t] == m1.arena[t]);
                } else if s < last && k == kl {
                    assert(m.arena[b][s] == moved);
                } else {
                    assert(self.entries[k] == m.entries[k]);
                    assert(self.entry_ok(k));
                    let e = self.entries[k];
                    assert(self.slot_ok(e.spec_bin() as int, e.spec_slot() as int, hole));
                    assert(m1.has_slot(e.spec_bin() as int, e.spec_slot() as int));
                }
            }
            assert forall|k: int| m.instances().dom().contains(k) implies #[trigger] m.instances()[k]
                == self.instances().insert(k0, placed)[k] by {
                if k == k0 {
                    assert(m.arena[t] == m1.arena[t]);
                } else if s < last && k == kl {
                    assert(m.arena[b][s] == moved);
                } else {
                    assert(self.entries[k] == m.entries[k]);
                    assert(self.entry_ok(k));
                    let e = self.entries[k];
                    assert(self.slot_ok(e.spec_bin() as int, e.spec_slot() as int, hole));
                    assert(m1.has_slot(e.spec_bin() as int, e.spec_slot() as int));
                }
            }
            assert forall|k: int| self.instances().insert(k0, placed).dom().contains(k) implies m.instances().dom().contains(
                k,
            ) by {
                if k == k0 {
                } else if s < last && k == kl {
                } else {
                    assert(self.entries[k] == m.entries[k]);
                }
            }
        }
        assert(m.instances() =~= self.instances().insert(k0, placed));
    }
}

} // verus!
