use crate::id::{MachineID, RawID, RawIDView};
use crate::messaging::{handled, run_handler, Fate, Handler, Packet, Panicked};
use crate::tuning::Tuning;
use crate::world::{allocated, next_version, IdAllocator, World};
use vstd::arithmetic::power2::{lemma2_to64, lemma2_to64_rest, lemma_pow2_unfold, pow2};
use vstd::prelude::*;

pub mod broadcast;
pub mod model;
pub mod slot_map;

use broadcast::{
    broadcast_result, lemma_left_dead, lemma_left_resized, lemma_stayed_in_place,
    lemma_stayed_resized, lemma_step_left, lemma_step_stayed, lemma_walk_next_bin,
    lemma_walk_nothing, lemma_walk_result, lemma_walk_start, lemma_walked_slot, walking,
};
use model::{bin_for_size, SlotView, StoreModel};
use slot_map::{SlotIndices, SlotMap};

verus! {

/// An actor instance: its id and its state.
pub struct Instance {
    /// The id under which the instance gets its messages.
    pub id: RawID,
    /// The state, in the bytes in which the class lays it out.
    pub state: Vec<u8>,
}

/// A slot of a bin with the instance that lies in it.
pub struct Slot {
    /// The instance.
    pub instance: Instance,
    /// The size that the instance had when it was placed. It fits its slot
    /// for as long as its state is no longer than this.
    pub slot_size: usize,
}

impl View for Slot {
    type V = SlotView;

    open spec fn view(&self) -> SlotView {
        SlotView {
            id: self.instance.id,
            state: self.instance.state@,
            slot_size: self.slot_size as nat,
        }
    }
}

/// The slots of a bin.
pub open spec fn bin_view(bin: Vec<Slot>) -> Seq<SlotView> {
    bin@.map_values(|s: Slot| s@)
}

proof fn lemma_bin_bound(base: nat, size: nat, k: nat)
    requires
        base >= 1,
        size <= base * pow2(k),
    ensures
        bin_for_size(base, size) <= k,
    decreases k,
{
    if size > base {
        if k == 0 {
            lemma2_to64();
        } else {
            lemma_pow2_unfold(k);
            assert(base * pow2(k) == (2 * base) * pow2((k - 1) as nat)) by (nonlinear_arith)
                requires
                    pow2(k) == 2 * pow2((k - 1) as nat),
            ;
            lemma_bin_bound(2 * base, size, (k - 1) as nat);
        }
    }
}

/// Why an instance cannot be added to a store.
#[derive(Copy, Clone, PartialEq, Eq, Structural, Debug)]
pub enum AddError {
    /// The slot map does not know the instance id: it was never allocated.
    UnknownId,
    /// An instance stands under the instance id.
    IdInUse,
    /// The version is not the one that the instance id is to be used with next.
    StaleVersion,
}

/// How the delivery of a message to one instance ended.
#[derive(Copy, Clone, PartialEq, Eq, Structural, Debug)]
pub enum Delivery {
    /// No instance stands under the recipient's instance id and version: the
    /// recipient has died, or was never spawned.
    NotFound,
    /// The handler ran and the instance lives on.
    Lived,
    /// The handler ran and the instance died.
    Died,
    /// The handler ran and panicked; the instance is kept.
    Panicked,
}

/// What the delivery of a message to one recipient has done. `m0` is the
/// store before, `m` the store after.
///
/// Nothing was found, and nothing has changed, if and only if no instance
/// stood under the recipient's instance id and version. Else the handler has
/// run on that instance. Where the instance died, it is gone, the count is
/// one less, and its instance id has the next version. Where it lives, it
/// has its id still, and no other instance has changed.
pub open spec fn delivery_result(
    m0: StoreModel,
    m: StoreModel,
    recipient_id: RawIDView,
    r: Delivery,
) -> bool {
    let k = recipient_id.instance_id as int;
    &&& m.entries.len() == m0.entries.len()
    &&& m.base == m0.base
    &&& r is NotFound <==> !m0.is_live(k, recipient_id.version)
    &&& r is NotFound ==> m == m0
    &&& r is Died ==> m.instances() == m0.instances().remove(k) && m.versions == m0.versions.update(
        k,
        next_version(recipient_id.version),
    ) && m.count + 1 == m0.count
    &&& r is Lived || r is Panicked ==> m.instances().dom() == m0.instances().dom()
        && m.instances()[k].id == m0.instances()[k].id && (forall|j: int|
        j != k && m0.instances().dom().contains(j) ==> #[trigger] m.instances()[j]
            == m0.instances()[j]) && m.versions == m0.versions && m.count == m0.count
}

/// What a broadcast to the instances of a class did.
pub struct BroadcastReport {
    /// The ids of the instances for which the handler ran, in the order in which it ran.
    pub delivered: Vec<RawID>,
    /// Whether the handler panicked, which ended the broadcast early.
    pub panicked: bool,
}

/// Each size has its bin among the first 65.
pub proof fn lemma_bin_in_range(base: nat, size: usize)
    requires
        base >= 1,
    ensures
        bin_for_size(base, size as nat) <= 64,
{
    lemma2_to64();
    lemma2_to64_rest();
    assert(size as nat <= base * pow2(64)) by (nonlinear_arith)
        requires
            size < 0x1_0000_0000_0000_0000,
            pow2(64) == 0x1_0000_0000_0000_0000,
            base >= 1,
    ;
    lemma_bin_bound(base, size as nat, 64);
}

/// Whether the id allocator of a class agrees with the store of the class.
/// Each id that waits for reuse is known to the store, has no instance, and
/// waits under the version that the store has for it; no id waits twice;
/// and each id that was never handed out is, where the store knows it,
/// without instance and of version 0. Every instance then has an id that
/// was handed out and does not wait.
pub open spec fn agrees(m: StoreModel, a: IdAllocator) -> bool {
    &&& waiting_free(m, a)
    &&& waiting_once(a)
    &&& unused_free(m, a)
}

/// Each id that waits for reuse was handed out before, is known to the
/// store, has no instance, and waits under the version that the store has for it.
pub open spec fn waiting_free(m: StoreModel, a: IdAllocator) -> bool {
    forall|i: int|
        0 <= i < a.free_ids().len() ==> {
            let e = #[trigger] a.free_ids()[i];
            &&& e.0 < a.next_id()
            &&& (e.0 as int) < m.entries.len()
            &&& !m.entries[e.0 as int].is_valid()
            &&& m.versions[e.0 as int] == e.1
        }
}

/// No id waits twice for reuse.
pub open spec fn waiting_once(a: IdAllocator) -> bool {
    forall|i: int, j: int|
        0 <= i < j < a.free_ids().len() ==> (#[trigger] a.free_ids()[i]).0 != (
        #[trigger] a.free_ids()[j]).0
}

/// Each id that was never handed out is, where the store knows it, without
/// instance and of version 0.
pub open spec fn unused_free(m: StoreModel, a: IdAllocator) -> bool {
    forall|k: int|
        a.next_id() <= k < m.entries.len() ==> !(#[trigger] m.entries[k]).is_valid()
            && m.versions[k] == 0
}

/// What the death of an instance has done to the world: where the world
/// has an allocator for the class of the instance, the instance id waits
/// there for reuse under the next version, as the id to be handed out
/// next. Nothing else has changed.
pub open spec fn freed(before: World, after: World, id: RawID) -> bool {
    &&& after.outbox() == before.outbox()
    &&& after.machine_id() == before.machine_id()
    &&& after.spec_panic_happened() == before.spec_panic_happened()
    &&& after.allocators().len() == before.allocators().len()
    &&& forall|i: int|
        0 <= i < before.allocators().len() && i != id.type_id@ ==> after.allocators()[i]
            == before.allocators()[i]
    &&& after.knows_class(id.type_id) == before.knows_class(id.type_id)
    &&& before.knows_class(id.type_id) ==> {
        let a = before.allocators()[id.type_id@ as int]->0;
        let b = after.allocators()[id.type_id@ as int]->0;
        &&& b.next_id() == a.next_id()
        &&& b.free_ids() == a.free_ids().push((id.instance_id, next_version(id.version)))
        &&& after.would_allocate(id.type_id) == Some(
            RawID {
                type_id: id.type_id,
                instance_id: id.instance_id,
                machine: after.machine_id(),
                version: next_version(id.version),
            },
        )
    }
    &&& !before.knows_class(id.type_id) ==> after.allocators() == before.allocators()
}

/// Whether the id of a dead instance is the next that its class hands out,
/// under the next version: so it is in a world that has an allocator for the class.
pub open spec fn reusable(world: World, id: RawID) -> bool {
    world.knows_class(id.type_id) ==> world.would_allocate(id.type_id) == Some(
        RawID {
            type_id: id.type_id,
            instance_id: id.instance_id,
            machine: world.machine_id(),
            version: next_version(id.version),
        },
    )
}

/// The death of an instance keeps the allocator and the store in agreement.
pub proof fn lemma_remove_keeps_agreement(
    m: StoreModel,
    a: IdAllocator,
    hole: (int, int),
    b: int,
    s: int,
)
    requires
        m.inv(hole),
        hole == (b, s) || hole == (-1int, -1int),
        m.has_slot(b, s),
        agrees(m, a),
    ensures
        forall|a2: IdAllocator|
            a2.next_id() == a.next_id() && #[trigger] a2.free_ids() == a.free_ids().push(
                (m.arena[b][s].id.instance_id, next_version(m.arena[b][s].id.version)),
            ) ==> agrees(m.remove(b, s), a2),
{
    let x = m.arena[b][s];
    let k0 = x.id.instance_id as int;
    let last = m.arena[b].len() - 1;
    let kl = m.arena[b][last].id.instance_id as int;
    let m2 = m.remove(b, s);
    let nv = next_version(x.id.version);
    assert(m.slot_ok(b, s, hole));
    assert(m.has_slot(b, last));
    assert(m.slot_ok(b, last, hole));
    m.lemma_remove(hole, b, s);
    SlotIndices::lemma_invalid();
    m.lemma_slot_is_instance(hole, b, s);
    SlotIndices::lemma_at(b, s);
    if s < last {
        m.lemma_ids_differ(hole, b, s, b, last);
    }
    assert(m.entries[k0].is_valid());
    assert(m.entries[kl].is_valid());
    assert forall|a2: IdAllocator|
        a2.next_id() == a.next_id() && #[trigger] a2.free_ids() == a.free_ids().push(
            (x.id.instance_id, nv),
        ) implies agrees(m2, a2) by {
        let f = a.free_ids();
        let f2 = a2.free_ids();
        assert forall|i: int| 0 <= i < f2.len() implies {
            let e = #[trigger] f2[i];
            &&& e.0 < a2.next_id()
            &&& (e.0 as int) < m2.entries.len()
            &&& !m2.entries[e.0 as int].is_valid()
            &&& m2.versions[e.0 as int] == e.1
        } by {
            if i < f.len() {
                assert(f2[i] == f[i]);
                assert(f[i].0 != k0);
                assert(f[i].0 != kl);
            } else {
                assert(f2[i] == (x.id.instance_id, nv));
                if k0 >= a.next_id() {
                    assert(!m.entries[k0].is_valid());
                }
            }
        }
        assert forall|i: int, j: int| 0 <= i < j < f2.len() implies (#[trigger] f2[i]).0 != (
        #[trigger] f2[j]).0 by {
            assert(f2[i] == f[i]);
            if j < f.len() {
                assert(f2[j] == f[j]);
            } else {
                assert(f[i].0 != k0);
            }
        }
        assert forall|k: int| a2.next_id() <= k < m2.entries.len() implies !(
        #[trigger] m2.entries[k]).is_valid() && m2.versions[k] == 0 by {
            assert(!m.entries[k].is_valid());
        }
        assert(waiting_free(m2, a2));
        assert(waiting_once(a2));
        assert(unused_free(m2, a2));
    }
}

/// Adding an instance under an id that was handed out and does not wait
/// keeps the allocator and the store in agreement.
pub proof fn lemma_add_keeps_agreement(m: StoreModel, a: IdAllocator, x: SlotView)
    requires
        agrees(m, a),
        x.id.instance_id < a.next_id(),
        forall|i: int| 0 <= i < a.free_ids().len() ==> (#[trigger] a.free_ids()[i]).0 != x.id.instance_id,
        (x.id.instance_id as int) < m.entries.len(),
    ensures
        agrees(m.add(x), a),
{
    let m2 = m.add(x);
    assert forall|i: int| 0 <= i < a.free_ids().len() implies {
        let e = #[trigger] a.free_ids()[i];
        &&& e.0 < a.next_id()
        &&& (e.0 as int) < m2.entries.len()
        &&& !m2.entries[e.0 as int].is_valid()
        &&& m2.versions[e.0 as int] == e.1
    } by {
    }
    assert(waiting_free(m2, a));
    assert(unused_free(m2, a));
}

/// What a delivery to the instance with the instance id `k` has to do with
/// the handler. Where the recipient was not found, the world is as it
/// was. Else the handler ran once, on the state of the instance and the
/// world as they were; the result tells its answer; an instance that lives on
/// has the state that the handler left, and the world is as the handler left
/// it; the id of an instance that died was freed in the world that the
/// handler left.
pub open spec fn instance_ran<H: Handler>(
    handler: &H,
    m0: StoreModel,
    m: StoreModel,
    packet: &Packet<Vec<u8>>,
    w0: World,
    w1: World,
    k: int,
    d: Delivery,
) -> bool {
    if d is NotFound {
        w1 == w0
    } else {
        exists|out: Result<Fate, Panicked>, after: Seq<u8>, left: World|
            {
                &&& #[trigger] handled(
                    handler,
                    m0.instances()[k].id,
                    m0.instances()[k].state,
                    packet,
                    w0,
                    out,
                    after,
                    left,
                )
                &&& d is Died <==> out == Ok::<Fate, Panicked>(Fate::Die)
                &&& d is Lived <==> out == Ok::<Fate, Panicked>(Fate::Live)
                &&& d is Panicked <==> out is Err
                &&& !(d is Died) ==> m.instances()[k].state == after && w1 == left
                &&& d is Died ==> freed(left, w1, m0.instances()[k].id)
            }
    }
}

/// What the deliveries of a broadcast have to do with the handler. The
/// delivery with the number `i` went to the instance with the id
/// `delivered[i]`: the handler ran on the state that the instance had at the
/// start and on the world `given[i]`, answered `answers[i]`, and left the
/// state `afters[i]` and the world `lefts[i]`. An instance is gone exactly
/// where its handler answered that it dies, and its id was then freed in the
/// world; any other has the state that its handler left. The next delivery
/// is given the world as this one left it. Only the last delivery can have
/// ended in a panic, and `panicked` says whether it did.
pub open spec fn broadcast_steps<H: Handler>(
    handler: &H,
    m0: StoreModel,
    m: StoreModel,
    packet: &Packet<Vec<u8>>,
    delivered: Seq<RawID>,
    given: Seq<World>,
    answers: Seq<Result<Fate, Panicked>>,
    afters: Seq<Seq<u8>>,
    lefts: Seq<World>,
    panicked: bool,
) -> bool {
    &&& given.len() == delivered.len() + 1
    &&& answers.len() == delivered.len()
    &&& afters.len() == delivered.len()
    &&& lefts.len() == delivered.len()
    &&& forall|i: int|
        #![trigger answers[i]]
        0 <= i < delivered.len() ==> {
            &&& handled(
                handler,
                delivered[i],
                m0.instances()[delivered[i].instance_id as int].state,
                packet,
                given[i],
                answers[i],
                afters[i],
                lefts[i],
            )
            &&& answers[i] is Err <==> panicked && i == delivered.len() - 1
            &&& answers[i] == Ok::<Fate, Panicked>(Fate::Die) <==> !m.instances().dom().contains(
                delivered[i].instance_id as int,
            )
            &&& answers[i] == Ok::<Fate, Panicked>(Fate::Die) ==> freed(
                lefts[i],
                given[i + 1],
                delivered[i],
            )
            &&& answers[i] != Ok::<Fate, Panicked>(Fate::Die) ==> given[i + 1] == lefts[i]
                && m.instances()[delivered[i].instance_id as int].state == afters[i]
        }
}

/// What a broadcast has to do with the handler: its deliveries ran the
/// handler as `broadcast_steps` says, the first on the world `w0`, and the
/// last left the world `w1`.
pub open spec fn broadcast_ran<H: Handler>(
    handler: &H,
    m0: StoreModel,
    m: StoreModel,
    packet: &Packet<Vec<u8>>,
    w0: World,
    w1: World,
    report: BroadcastReport,
) -> bool {
    exists|
        given: Seq<World>,
        answers: Seq<Result<Fate, Panicked>>,
        afters: Seq<Seq<u8>>,
        lefts: Seq<World>,
    |
        {
            &&& #[trigger] broadcast_steps(
                handler,
                m0,
                m,
                packet,
                report.delivered@,
                given,
                answers,
                afters,
                lefts,
                report.panicked,
            )
            &&& given[0] == w0
            &&& given[report.delivered@.len() as int] == w1
        }
}

/// The instances of one actor class: their states in bins by size, and the
/// slot map that finds each by its id.
pub struct InstanceStore {
    base_size: usize,
    bins: Vec<Vec<Slot>>,
    slot_map: SlotMap,
    n_instances: usize,
}

impl InstanceStore {
    /// The state of the store.
    pub closed spec fn model(&self) -> StoreModel {
        StoreModel {
            arena: self.bins@.map_values(|bin: Vec<Slot>| bin_view(bin)),
            entries: self.slot_map.entries(),
            versions: self.slot_map.versions(),
            count: self.n_instances as nat,
            base: self.base_size as nat,
        }
    }

    /// The invariant of the store. Every instance is found by its id and
    /// version through exactly one entry of the slot map, every valid entry
    /// leads to an instance, and `n_instances` counts both.
    pub open spec fn wf(&self) -> bool {
        self.model().inv((-1, -1))
    }

    /// The live instances by instance id.
    pub open spec fn instances(&self) -> Map<int, SlotView> {
        self.model().instances()
    }

    /// An empty store whose bin 0 takes instances up to `typical_size`.
    pub fn new(typical_size: usize, tuning: &Tuning) -> (store: InstanceStore)
        requires
            typical_size >= 1,
        ensures
            store.wf(),
            store.model().base == typical_size,
            store.model().arena.len() == 0,
            store.model().entries.len() == 0,
            store.model().count == 0,
    {
        let store = InstanceStore {
            base_size: typical_size,
            bins: Vec::new(),
            slot_map: SlotMap::new(tuning),
            n_instances: 0,
        };
        assert(store.model().arena =~= Seq::<Seq<SlotView>>::empty());
        store
    }

    /// The number of live instances.
    pub fn n_instances(&self) -> (n: usize)
        ensures
            n == self.model().count,
    {
        self.n_instances
    }

    /// The index of the bin for instances of a size.
    pub fn size_to_index(&self, size: usize) -> (bin: usize)
        requires
            self.model().base >= 1,
        ensures
            bin == bin_for_size(self.model().base, size as nat),
            bin <= 64,
    {
        proof {
            lemma_bin_in_range(self.model().base, size);
        }
        let mut capacity: usize = self.base_size;
        let mut bin: usize = 0;
        while capacity < size
            invariant
                capacity >= 1,
                bin + bin_for_size(capacity as nat, size as nat) == bin_for_size(
                    self.model().base,
                    size as nat,
                ),
                bin_for_size(self.model().base, size as nat) <= 64,
            decreases
                    (if size > capacity {
                        size - capacity
                    } else {
                        0
                    }),
        {
            if capacity > usize::MAX / 2 {
                assert(bin_for_size(2 * (capacity as nat), size as nat) == 0);
                return bin + 1;
            }
            capacity = capacity * 2;
            bin = bin + 1;
        }
        bin
    }

    /// Whether the store can take an instance under an id that an allocator
    /// gives: the id is not the one that stands for a broadcast, and the
    /// store either knows it as an id without instance under this version,
    /// or does not know it and the version is 0.
    pub open spec fn admits(&self, given: RawID) -> bool {
        let k = given.instance_id as int;
        &&& given.instance_id < 0xFFFF_FFFF
        &&& if k < self.model().entries.len() {
            !self.model().entries[k].is_valid() && self.model().versions[k] == given.version
        } else {
            given.version == 0
        }
    }

    /// An id for an instance that is to be spawned in this store: of the
    /// type and on the machine of `base_id`, with the instance id and version
    /// that the world's allocator of that type hands out. The slot map knows
    /// the id afterwards, and the instance can be added under it. `None`
    /// where the world has no allocator for the type or no id is left, and
    /// where the store cannot take an instance under the id that the
    /// allocator gives; an allocator that agrees with the store gives no such id.
    pub fn allocate_id(&mut self, base_id: RawID, world: &mut World) -> (r: Option<RawID>)
        requires
            old(self).wf(),
        ensures
            final(self).wf(),
            final(self).instances() == old(self).instances(),
            final(self).model().arena == old(self).model().arena,
            final(self).model().count == old(self).model().count,
            final(self).model().base == old(self).model().base,
            final(self).model().entries.len() == (match r {
                Some(id) if id.instance_id >= old(self).model().entries.len() => id.instance_id
                    + 1,
                _ => old(self).model().entries.len() as int,
            }),
            forall|k: int|
                0 <= k < old(self).model().entries.len() ==> #[trigger] final(self).model().entries[k] == old(self).model().entries[k] && final(self).model().versions[k] == old(self).model().versions[k],
            forall|k: int|
                old(self).model().entries.len() <= k < final(self).model().entries.len() ==> !(
                #[trigger] final(self).model().entries[k]).is_valid() && final(self).model().versions[k] == 0,
            allocated(
                *old(world),
                *final(world),
                base_id.type_id,
                old(world).would_allocate(base_id.type_id),
            ),
            r == (match old(world).would_allocate(base_id.type_id) {
                Some(given) => if old(self).admits(given) {
                    Some(RawID { machine: base_id.machine, ..given })
                } else {
                    None
                },
                None => None,
            }),
            r matches Some(id) ==> final(self).can_add(id),
            old(world).knows_class(base_id.type_id) && agrees(
                old(self).model(),
                old(world).allocators()[base_id.type_id@ as int]->0,
            ) ==> agrees(
                final(self).model(),
                final(world).allocators()[base_id.type_id@ as int]->0,
            ) && (r is Some <==> old(world).would_allocate(base_id.type_id) is Some),
    {
        let ghost a0 = old(world).allocators()[base_id.type_id@ as int]->0;
        let ghost m0 = self.model();
        match world.allocate_instance_id(base_id.type_id) {
            None => None,
            Some(given) => {
                let ghost a1 = world.allocators()[base_id.type_id@ as int]->0;
                proof {
                    if agrees(m0, a0) {
                        if a0.free_ids().len() > 0 {
                            let last = a0.free_ids().len() - 1;
                            assert(a0.free_ids()[last].0 == given.instance_id);
                            assert forall|i: int| 0 <= i < a1.free_ids().len() implies {
                                let e = #[trigger] a1.free_ids()[i];
                                &&& e.0 < a1.next_id()
                                &&& (e.0 as int) < m0.entries.len()
                                &&& !m0.entries[e.0 as int].is_valid()
                                &&& m0.versions[e.0 as int] == e.1
                            } by {
                                assert(a1.free_ids()[i] == a0.free_ids()[i]);
                            }
                            assert forall|i: int, j: int|
                                0 <= i < j < a1.free_ids().len() implies (
                            #[trigger] a1.free_ids()[i]).0 != (#[trigger] a1.free_ids()[j]).0 by {
                                assert(a1.free_ids()[i] == a0.free_ids()[i]);
                                assert(a1.free_ids()[j] == a0.free_ids()[j]);
                            }
                        }
                        assert(self.admits(given));
                    }
                }
                if given.instance_id == u32::MAX {
                    return None;
                }
                let k = given.instance_id as usize;
                let free = match self.slot_map.indices_of_no_version_check(k) {
                    Some(entry) => {
                        let version = self.slot_map.version_of(k).unwrap();
                        !entry.exec_is_valid() && version == given.version
                    },
                    None => given.version == 0,
                };
                if !free {
                    return None;
                }
                self.admit_ids(given.instance_id + 1);
                proof {
                    let m1 = self.model();
                    if agrees(m0, a0) {
                        assert forall|i: int| 0 <= i < a1.free_ids().len() implies {
                            let e = #[trigger] a1.free_ids()[i];
                            &&& e.0 < a1.next_id()
                            &&& (e.0 as int) < m1.entries.len()
                            &&& !m1.entries[e.0 as int].is_valid()
                            &&& m1.versions[e.0 as int] == e.1
                        } by {
                            if a0.free_ids().len() > 0 {
                                assert(a1.free_ids()[i] == a0.free_ids()[i]);
                            }
                        }
                        assert forall|j: int| a1.next_id() <= j < m1.entries.len() implies !(
                        #[trigger] m1.entries[j]).is_valid() && m1.versions[j] == 0 by {
                            if j < m0.entries.len() {
                                assert(m1.entries[j] == m0.entries[j]);
                            }
                        }
                    }
                }
                Some(RawID::new(base_id.type_id, given.instance_id, base_id.machine, given.version))
            },
        }
    }

    /// The number of instance ids that the slot map knows.
    pub fn known_ids(&self) -> (n: usize)
        requires
            self.wf(),
        ensures
            n == self.model().entries.len(),
    {
        self.slot_map.len()
    }

    /// Makes every instance id below `n` known to the slot map, so that an
    /// instance can be added under it.
    pub fn admit_ids(&mut self, n: u32)
        requires
            old(self).wf(),
        ensures
            final(self).wf(),
            final(self).instances() == old(self).instances(),
            final(self).model().arena == old(self).model().arena,
            final(self).model().count == old(self).model().count,
            final(self).model().base == old(self).model().base,
            final(self).model().entries.len() == if n > old(self).model().entries.len() {
                n as nat
            } else {
                old(self).model().entries.len()
            },
            forall|k: int|
                0 <= k < old(self).model().entries.len() ==> final(self).model().entries[k] == old(self).model().entries[k] && final(self).model().versions[k] == old(self).model().versions[k],
            forall|k: int|
                old(self).model().entries.len() <= k < final(self).model().entries.len() ==> !(
                #[trigger] final(self).model().entries[k]).is_valid() && final(self).model().versions[k] == 0,
    {
        self.slot_map.reserve(n);
        proof {
            let m0 = old(self).model();
            let m = self.model();
            let none = (-1int, -1int);
            assert forall|k: int| 0 <= k < m0.entries.len() implies m.entries[k] == m0.entries[k]
                && m.versions[k] == m0.versions[k] by {
                assert(m.entries.subrange(0, m0.entries.len() as int)[k] == m.entries[k]);
                assert(m.versions.subrange(0, m0.entries.len() as int)[k] == m.versions[k]);
            }
            assert forall|b: int, s: int| #[trigger] m.has_slot(b, s) implies m.slot_ok(
                b,
                s,
                none,
            ) by {
                assert(m0.has_slot(b, s));
                assert(m0.slot_ok(b, s, none));
            }
            assert forall|k: int|
                0 <= k < m.entries.len() && (#[trigger] m.entries[k]).is_valid() implies m.entry_ok(
                k,
            ) by {
                assert(m0.entry_ok(k));
            }
            assert(m.instances() =~= m0.instances());
        }
    }

    /// Whether an instance can be added under an id: the slot map knows the
    /// instance id, no instance stands under it, and the version is the one
    /// that the instance id is to be used with next.
    pub open spec fn can_add(&self, id: RawID) -> bool {
        &&& (id.instance_id as int) < self.model().entries.len()
        &&& !self.model().entries[id.instance_id as int].is_valid()
        &&& self.model().versions[id.instance_id as int] == id.version
    }

    fn ensure_bin(&mut self, t: usize)
        requires
            t <= 64,
        ensures
            final(self).model() == (StoreModel {
                arena: model::padded(old(self).model().arena, t + 1),
                ..old(self).model()
            }),
            final(self).slot_map == old(self).slot_map,
            final(self).bins@.len() > t,
    {
        while self.bins.len() <= t
            invariant
                t <= 64,
                self.slot_map == old(self).slot_map,
                self.n_instances == old(self).n_instances,
                self.base_size == old(self).base_size,
                self.bins@.len() >= old(self).bins@.len(),
                self.bins@.len() <= t + 1 || self.bins@.len() == old(self).bins@.len(),
                forall|b: int| 0 <= b < old(self).bins@.len() ==> self.bins@[b] == old(self).bins@[b],
                forall|b: int| old(self).bins@.len() <= b < self.bins@.len() ==> self.bins@[b]@.len() == 0,
            decreases t + 1 - self.bins@.len(),
        {
            self.bins.push(Vec::new());
        }
        proof {
            let a = self.model().arena;
            let w = model::padded(old(self).model().arena, t + 1);
            assert(a.len() == w.len());
            assert forall|b: int| 0 <= b < a.len() implies a[b] =~= w[b] by {
            }
            assert(a =~= w);
        }
    }

    /// Appends an instance to the bin for its size and sets the entry of its id to that slot.
    fn place(&mut self, instance: Instance)
        requires
            old(self).model().arena.len() <= 65,
            old(self).model().base >= 1,
            old(self).slot_map.wf(),
            (instance.id.instance_id as int) < old(self).model().entries.len(),
        ensures
            final(self).model() == old(self).model().push(
                SlotView {
                    id: instance.id,
                    state: instance.state@,
                    slot_size: instance.state@.len(),
                },
            ),
            final(self).slot_map.wf(),
    {
        let size = instance.state.len();
        let t = self.size_to_index(size);
        self.ensure_bin(t);
        let p = self.bins[t].len();
        let k0 = instance.id.instance_id as usize;
        let ghost x = SlotView { id: instance.id, state: instance.state@, slot_size: size as nat };
        let ghost wide = model::padded(old(self).model().arena, t + 1);
        self.bins[t].push(Slot { instance, slot_size: size });
        self.slot_map.associate(k0, SlotIndices::new(t, p));
        proof {
            let a = self.model().arena;
            let w = wide.update(t as int, wide[t as int].push(x));
            assert(a.len() == w.len());
            assert forall|b: int| 0 <= b < a.len() implies a[b] =~= w[b] by {
            }
            assert(a =~= w);
        }
    }

    /// Vacates a slot: the instance at the end of the bin moves into it, and
    /// the entry of that instance's id is set to the slot.
    fn swap_remove(&mut self, b: usize, s: usize) -> (removed: Slot)
        requires
            old(self).model().has_slot(b as int, s as int),
            old(self).slot_map.wf(),
            (old(self).model().arena[b as int].last().id.instance_id as int) < old(self).model().entries.len(),
        ensures
            final(self).model() == old(self).model().swap_remove(b as int, s as int),
            removed@ == old(self).model().arena[b as int][s as int],
            final(self).slot_map.wf(),
    {
        let ghost bin0 = old(self).model().arena[b as int];
        let removed = self.bins[b].swap_remove(s);
        if s < self.bins[b].len() {
            let moved_id = self.bins[b][s].instance.id.instance_id as usize;
            assert(self.bins@[b as int]@[s as int]@ == bin0.last());
            self.slot_map.associate(moved_id, SlotIndices::new(b, s));
        }
        proof {
            let a = self.model().arena;
            let w = old(self).model().arena.update(b as int, model::swap_removed(bin0, s as int));
            assert(a.len() == w.len());
            assert forall|b2: int| 0 <= b2 < a.len() implies a[b2] =~= w[b2] by {
            }
            assert(a =~= w);
        }
        removed
    }

    /// Adds a new instance under its id. The id must have been allocated
    /// and be free: the slot map knows the instance id, no instance stands
    /// under it, and the version is the one it is to be used with next.
    /// An allocator that agreed with the store still agrees with it, if it
    /// has handed the instance id out and does not hold it for reuse.
    pub fn add(&mut self, instance: Instance) -> (r: Result<(), AddError>)
        requires
            old(self).wf(),
        ensures
            final(self).wf(),
            r is Ok <==> old(self).can_add(instance.id),
            r is Ok ==> final(self).model() == old(self).model().add(
                SlotView {
                    id: instance.id,
                    state: instance.state@,
                    slot_size: instance.state@.len(),
                },
            ) && final(self).instances() == old(self).instances().insert(
                instance.id.instance_id as int,
                SlotView {
                    id: instance.id,
                    state: instance.state@,
                    slot_size: instance.state@.len(),
                },
            ),
            r is Err ==> final(self).model() == old(self).model(),
            r is Ok ==> forall|a: IdAllocator|
                #![trigger agrees(old(self).model(), a)]
                agrees(old(self).model(), a) && instance.id.instance_id < a.next_id() && (forall|
                    i: int,
                |
                    0 <= i < a.free_ids().len() ==> (#[trigger] a.free_ids()[i]).0
                        != instance.id.instance_id) ==> agrees(final(self).model(), a),
            r == Err::<(), AddError>(AddError::UnknownId) <==> instance.id.instance_id >= old(self).model().entries.len(),
            r == Err::<(), AddError>(AddError::IdInUse) <==> instance.id.instance_id < old(self).model().entries.len() && old(self).model().entries[instance.id.instance_id as int].is_valid(),
    {
        let k0 = instance.id.instance_id as usize;
        match self.slot_map.indices_of_no_version_check(k0) {
            None => {
                return Err(AddError::UnknownId);
            },
            Some(entry) => {
                if entry.exec_is_valid() {
                    return Err(AddError::IdInUse);
                }
            },
        }
        let version = self.slot_map.version_of(k0).unwrap();
        if version != instance.id.version {
            return Err(AddError::StaleVersion);
        }
        proof {
            let m0 = self.model();
            let x = SlotView {
                id: instance.id,
                state: instance.state@,
                slot_size: instance.state@.len(),
            };
            lemma_bin_in_range(m0.base, instance.state.len());
            m0.lemma_add(x);
            assert forall|a: IdAllocator|
                #![trigger agrees(m0, a)]
                agrees(m0, a) && instance.id.instance_id < a.next_id() && (forall|i: int|
                    0 <= i < a.free_ids().len() ==> (#[trigger] a.free_ids()[i]).0
                        != instance.id.instance_id) implies agrees(m0.add(x), a) by {
                lemma_add_keeps_agreement(m0, a, x);
            }
        }
        self.place(instance);
        self.n_instances = self.n_instances + 1;
        Ok(())
    }

    /// The instance that stands under the instance id and version of an id, if one does.
    pub fn get(&self, id: RawID) -> (r: Option<&Instance>)
        requires
            self.wf(),
        ensures
            r is Some <==> self.model().is_live(id.instance_id as int, id.version),
            r matches Some(i) ==> i.id == self.instances()[id.instance_id as int].id && i.state@
                == self.instances()[id.instance_id as int].state,
    {
        match self.slot_map.indices_of(id.instance_id as usize, id.version) {
            None => None,
            Some(index) => {
                if !index.exec_is_valid() {
                    return None;
                }
                proof {
                    self.model().lemma_instance_has_slot((-1, -1), id.instance_id as int);
                }
                Some(&self.bins[index.bin()][index.slot()].instance)
            },
        }
    }

    /// Runs a handler on the instance in a slot: the handler is handed the
    /// state of the instance and the world, and what it leaves of them is
    /// the state of the instance and the world afterwards.
    fn deliver_at<H: Handler>(
        &mut self,
        b: usize,
        s: usize,
        packet: &Packet<Vec<u8>>,
        world: &mut World,
        handler: &H,
    ) -> (r: Result<Fate, Panicked>)
        requires
            old(self).model().has_slot(b as int, s as int),
        ensures
            final(self).model() == old(self).model().set_state(
                b as int,
                s as int,
                final(self).model().arena[b as int][s as int].state,
            ),
            final(self).slot_map == old(self).slot_map,
            handled(
                handler,
                old(self).model().arena[b as int][s as int].id,
                old(self).model().arena[b as int][s as int].state,
                packet,
                *old(world),
                r,
                final(self).model().arena[b as int][s as int].state,
                *final(world),
            ),
            exists|st: &mut Vec<u8>, w: &mut World| #[trigger]
                call_ensures(
                    <H as Handler>::handle,
                    (handler, old(self).model().arena[b as int][s as int].id, st, packet, w),
                    r,
                ) && (*st)@ == old(self).model().arena[b as int][s as int].state && (*final(st))@
                    == final(self).model().arena[b as int][s as int].state && *w == *old(world)
                    && *final(w) == *final(world),
    {
        let id = self.bins[b][s].instance.id;
        let mut state: Vec<u8> = Vec::new();
        core::mem::swap(&mut self.bins[b][s].instance.state, &mut state);
        let mut lent = World::new(MachineID(0), 0);
        core::mem::swap(world, &mut lent);
        let ghost before = state;
        let ghost w0 = lent;
        let ran = run_handler(handler, id, state, packet, lent);
        let r = ran.0;
        let mut state = ran.1;
        let mut lent = ran.2;
        let ghost after = state;
        let ghost w1 = lent;
        core::mem::swap(&mut self.bins[b][s].instance.state, &mut state);
        core::mem::swap(world, &mut lent);
        proof {
            let a = self.model().arena;
            let a0 = old(self).model().arena;
            let w = a0.update(
                b as int,
                a0[b as int].update(
                    s as int,
                    SlotView { state: a[b as int][s as int].state, ..a0[b as int][s as int] },
                ),
            );
            assert(a.len() == w.len());
            assert forall|b2: int| 0 <= b2 < a.len() implies a[b2] =~= w[b2] by {
            }
            assert(a =~= w);
            assert(call_ensures(run_handler::<H>, (handler, id, before, packet, w0), (r, after, w1)));
            assert(a[b as int][s as int].state == after@);
        }
        r
    }

    /// Places the instance in a slot anew by the size of its state.
    fn resize_at_index(&mut self, b: usize, s: usize)
        requires
            old(self).model().inv((b as int, s as int)) || old(self).wf(),
            old(self).model().has_slot(b as int, s as int),
            old(self).slot_map.wf(),
        ensures
            final(self).model() == old(self).model().resize(b as int, s as int),
            final(self).wf(),
            final(self).slot_map.wf(),
    {
        let ghost m0 = old(self).model();
        let ghost hole = if m0.inv((b as int, s as int)) {
            (b as int, s as int)
        } else {
            (-1int, -1int)
        };
        let size = self.bins[b][s].instance.state.len();
        let t = self.size_to_index(size);
        proof {
            m0.lemma_resize(hole, b as int, s as int);
            m0.lemma_slot_is_instance(hole, b as int, s as int);
            assert(m0.has_slot(b as int, m0.arena[b as int].len() - 1));
            assert(m0.slot_ok(b as int, m0.arena[b as int].len() - 1, hole));
        }
        if t == b {
            self.bins[b][s].slot_size = size;
            proof {
                let a = self.model().arena;
                let w = m0.resize(b as int, s as int).arena;
                assert(a.len() == w.len());
                assert forall|b2: int| 0 <= b2 < a.len() implies a[b2] =~= w[b2] by {
                }
                assert(a =~= w);
            }
        } else {
            let slot = self.swap_remove(b, s);
            let ghost m1 = self.model();
            proof {
                m0.lemma_swap_remove_shape(b as int, s as int);
                assert(m0.slot_ok(b as int, s as int, hole));
                if s < m0.arena[b as int].len() - 1 {
                    m0.lemma_ids_differ(
                        hole,
                        b as int,
                        s as int,
                        b as int,
                        m0.arena[b as int].len() - 1,
                    );
                }
            }
            self.place(slot.instance);
            proof {
                let x = m0.arena[b as int][s as int];
                let placed = SlotView { slot_size: x.state.len(), ..x };
                let want = m0.push(placed).swap_remove(b as int, s as int);
                let got = self.model();
                m0.lemma_push_shape(placed);
                assert(got.arena.len() == want.arena.len());
                assert forall|b2: int| 0 <= b2 < got.arena.len() implies got.arena[b2]
                    =~= want.arena[b2] by {
                }
                assert(got.arena =~= want.arena);
                assert(got.entries =~= want.entries);
            }
        }
    }

    /// Takes the instance in a slot out of the store: its slot is vacated,
    /// its id is freed, and the world's allocator of its class gets the
    /// instance id back for reuse under the next version.
    fn remove_at_index(&mut self, b: usize, s: usize, world: &mut World)
        requires
            old(self).model().inv((b as int, s as int)) || old(self).wf(),
            old(self).model().has_slot(b as int, s as int),
            old(self).slot_map.wf(),
        ensures
            final(self).model() == old(self).model().remove(b as int, s as int),
            final(self).wf(),
            final(self).slot_map.wf(),
            freed(*old(world), *final(world), old(self).model().arena[b as int][s as int].id),
            old(world).knows_class(old(self).model().arena[b as int][s as int].id.type_id)
                && agrees(
                old(self).model(),
                old(world).allocators()[old(self).model().arena[b as int][s as int].id.type_id@ as int]->0,
            ) ==> agrees(
                final(self).model(),
                final(world).allocators()[old(self).model().arena[b as int][s as int].id.type_id@ as int]->0,
            ),
    {
        let ghost m0 = old(self).model();
        let ghost hole = if m0.inv((b as int, s as int)) {
            (b as int, s as int)
        } else {
            (-1int, -1int)
        };
        proof {
            let x = m0.arena[b as int][s as int];
            if old(world).knows_class(x.id.type_id) {
                let a0 = old(world).allocators()[x.id.type_id@ as int]->0;
                if agrees(m0, a0) {
                    lemma_remove_keeps_agreement(m0, a0, hole, b as int, s as int);
                }
            }
            m0.lemma_remove(hole, b as int, s as int);
            m0.lemma_slot_is_instance(hole, b as int, s as int);
            assert(m0.has_slot(b as int, m0.arena[b as int].len() - 1));
            assert(m0.slot_ok(b as int, m0.arena[b as int].len() - 1, hole));
            assert(m0.slot_ok(b as int, s as int, hole));
        }
        let slot = self.swap_remove(b, s);
        let id = slot.instance.id;
        self.slot_map.free(id.instance_id as usize, id.version);
        self.n_instances = self.n_instances - 1;
        world.free_instance_id(id.type_id, id.instance_id, id.version);
    }

    /// Does to the instance in a slot what the answer of its handler asks
    /// for. An instance whose handler answered that it dies is taken out of
    /// the store, and its id goes to the world's allocator of its class for
    /// reuse under the next version. Any other instance stays; where its
    /// state has outgrown its slot, it is placed anew by the size of its
    /// state. The result tells the answer.
    pub fn settle(
        &mut self,
        b: usize,
        s: usize,
        outcome: Result<Fate, Panicked>,
        world: &mut World,
    ) -> (r: Delivery)
        requires
            old(self).model().inv((b as int, s as int)) || old(self).wf(),
            old(self).model().has_slot(b as int, s as int),
        ensures
            final(self).wf(),
            r == (match outcome {
                Ok(Fate::Die) => Delivery::Died,
                Ok(Fate::Live) => Delivery::Lived,
                Err(_) => Delivery::Panicked,
            }),
            outcome == Ok::<Fate, Panicked>(Fate::Die) ==> final(self).model() == old(self).model().remove(b as int, s as int) && freed(
                *old(world),
                *final(world),
                old(self).model().arena[b as int][s as int].id,
            ),
            outcome != Ok::<Fate, Panicked>(Fate::Die) ==> *final(world) == *old(world) && final(self).model() == (if old(self).model().arena[b as int][s as int].state.len() > old(self).model().arena[b as int][s as int].slot_size {
                old(self).model().resize(b as int, s as int)
            } else {
                old(self).model()
            }),
            outcome == Ok::<Fate, Panicked>(Fate::Die) && old(world).knows_class(
                old(self).model().arena[b as int][s as int].id.type_id,
            ) && agrees(
                old(self).model(),
                old(world).allocators()[old(self).model().arena[b as int][s as int].id.type_id@ as int]->0,
            ) ==> agrees(
                final(self).model(),
                final(world).allocators()[old(self).model().arena[b as int][s as int].id.type_id@ as int]->0,
            ),
    {
        let ghost m = self.model();
        match outcome {
            Ok(Fate::Die) => {
                self.remove_at_index(b, s, world);
                Delivery::Died
            },
            _ => {
                if self.bins[b][s].instance.state.len() > self.bins[b][s].slot_size {
                    self.resize_at_index(b, s);
                } else {
                    proof {
                        let hole = if m.inv((b as int, s as int)) {
                            (b as int, s as int)
                        } else {
                            (-1int, -1int)
                        };
                        m.lemma_set_state(hole, b as int, s as int, m.arena[b as int][s as int].state);
                        let same = m.set_state(b as int, s as int, m.arena[b as int][s as int].state);
                        assert(same.arena[b as int] =~= m.arena[b as int]);
                        assert(same.arena =~= m.arena);
                        assert(same == m);
                    }
                }
                match outcome {
                    Ok(_) => Delivery::Lived,
                    Err(_) => Delivery::Panicked,
                }
            },
        }
    }

    /// Delivers a message to the instance that stands under the instance id
    /// and version of the recipient. Where none does, nothing happens: the
    /// recipient is dead. Else the handler runs once on that instance. If
    /// the instance then lives on with a state that has outgrown its slot,
    /// it is placed anew; if it dies, it is taken out and its id is freed.
    ///
    /// What the handler was handed and what became of its answer is told
    /// by `instance_ran`, and once more of the handler's `handle` itself.
    pub fn receive_instance<H: Handler>(
        &mut self,
        recipient_id: RawID,
        packet: &Packet<Vec<u8>>,
        world: &mut World,
        handler: &H,
    ) -> (r: Delivery)
        requires
            old(self).wf(),
        ensures
            final(self).wf(),
            delivery_result(old(self).model(), final(self).model(), recipient_id@, r),
            r is NotFound ==> *final(world) == *old(world),
            r is Died ==> reusable(
                *final(world),
                old(self).instances()[recipient_id.instance_id as int].id,
            ),
            instance_ran(
                handler,
                old(self).model(),
                final(self).model(),
                packet,
                *old(world),
                *final(world),
                recipient_id.instance_id as int,
                r,
            ),
            !(r is NotFound) ==> exists|st: &mut Vec<u8>, w: &mut World, out: Result<Fate, Panicked>|
                {
                    &&& #[trigger] call_ensures(
                        <H as Handler>::handle,
                        (
                            handler,
                            old(self).instances()[recipient_id.instance_id as int].id,
                            st,
                            packet,
                            w,
                        ),
                        out,
                    )
                    &&& (*st)@ == old(self).instances()[recipient_id.instance_id as int].state
                    &&& *w == *old(world)
                    &&& r is Died <==> out == Ok::<Fate, Panicked>(Fate::Die)
                    &&& r is Lived <==> out == Ok::<Fate, Panicked>(Fate::Live)
                    &&& r is Panicked <==> out is Err
                    &&& !(r is Died) ==> final(self).instances()[recipient_id.instance_id as int].state
                        == (*final(st))@ && *final(world) == *final(w)
                    &&& r is Died ==> freed(
                        *final(w),
                        *final(world),
                        old(self).instances()[recipient_id.instance_id as int].id,
                    )
                },
    {
        let ghost m0 = self.model();
        let ghost none = (-1int, -1int);
        let ghost k0 = recipient_id.instance_id as int;
        let r = match self.slot_map.indices_of(recipient_id.instance_id as usize, recipient_id.version) {
            None => Delivery::NotFound,
            Some(index) => {
                if !index.exec_is_valid() {
                    return Delivery::NotFound;
                }
                let b = index.bin();
                let s = index.slot();
                proof {
                    m0.lemma_instance_has_slot(none, k0);
                    assert(m0.slot_ok(b as int, s as int, none));
                }
                let outcome = self.deliver_at(b, s, packet, world, handler);
                let ghost m1 = self.model();
                proof {
                    m0.lemma_set_state(none, b as int, s as int, m1.arena[b as int][s as int].state);
                    m1.lemma_remove((b as int, s as int), b as int, s as int);
                    assert(m1.instances().remove(k0) =~= m0.instances().remove(k0));
                    if m1.arena[b as int][s as int].state.len() > m1.arena[b as int][s as int].slot_size {
                        lemma_bin_in_range(
                            m1.base,
                            self.bins[b as int][s as int].instance.state.len(),
                        );
                        m1.lemma_resize((b as int, s as int), b as int, s as int);
                    }
                    assert(m1.slot_of(k0).id == m0.instances()[k0].id);
                }
                let ghost w1 = *world;
                let r = self.settle(b, s, outcome, world);
                proof {
                    if !(r is Died) {
                        assert(self.instances().dom() =~= m0.instances().dom());
                        assert(self.instances()[k0].state == m1.arena[b as int][s as int].state);
                        assert(*world == w1);
                    }
                    assert(m0.instances()[k0] == m0.arena[b as int][s as int]);
                    assert(m1.arena[b as int][s as int].id == m0.arena[b as int][s as int].id);
                }
                r
            },
        };
        proof {
            assert(old(self).instances() == m0.instances());
            assert(self.instances() == self.model().instances());
        }
        r
    }

    /// Whether the store is as it should be but that the instance with the
    /// given instance id may have outgrown its slot.
    pub open spec fn wf_but(&self, id: int) -> bool {
        &&& 0 <= id < self.model().entries.len()
        &&& self.model().entries[id].is_valid()
        &&& self.model().inv(
            (
                self.model().entries[id].spec_bin() as int,
                self.model().entries[id].spec_slot() as int,
            ),
        )
    }

    /// Places the instance with an instance id anew by the size of its state.
    fn resize(&mut self, id: usize)
        requires
            old(self).wf_but(id as int),
            old(self).slot_map.wf(),
        ensures
            final(self).model() == old(self).model().resize(
                old(self).model().entries[id as int].spec_bin() as int,
                old(self).model().entries[id as int].spec_slot() as int,
            ),
            final(self).wf(),
            final(self).slot_map.wf(),
    {
        let index = self.slot_map.indices_of_no_version_check(id).unwrap();
        proof {
            let m = self.model();
            assert(m.entry_ok(id as int));
        }
        self.resize_at_index(index.bin(), index.slot())
    }

    /// Takes the instance with an id out of the store.
    fn remove(&mut self, id: RawID, world: &mut World)
        requires
            old(self).wf_but(id.instance_id as int),
            old(self).slot_map.wf(),
        ensures
            final(self).model() == old(self).model().remove(
                old(self).model().entries[id.instance_id as int].spec_bin() as int,
                old(self).model().entries[id.instance_id as int].spec_slot() as int,
            ),
            final(self).wf(),
            final(self).slot_map.wf(),
            freed(*old(world), *final(world), old(self).model().slot_of(id.instance_id as int).id),
    {
        let i = self.slot_map.indices_of_no_version_check(id.instance_id as usize).unwrap();
        proof {
            let m = self.model();
            assert(m.entry_ok(id.instance_id as int));
        }
        self.remove_at_index(i.bin(), i.slot(), world);
    }

    /// The number of slots of each bin.
    fn bin_lens(&self) -> (lens: Vec<usize>)
        ensures
            lens@.len() == self.model().arena.len(),
            forall|i: int| 0 <= i < lens@.len() ==> #[trigger] lens@[i] == self.model().arena[i].len(),
    {
        let mut lens: Vec<usize> = Vec::new();
        let mut i: usize = 0;
        while i < self.bins.len()
            invariant
                i <= self.bins@.len(),
                lens@.len() == i,
                forall|j: int| 0 <= j < i ==> #[trigger] lens@[j] == self.model().arena[j].len(),
            decreases self.bins@.len() - i,
        {
            lens.push(self.bins[i].len());
            i += 1;
        }
        lens
    }

    /// Delivers a message to every instance of the class: the handler runs
    /// once on each instance that is alive when the broadcast starts, bin by
    /// bin and slot by slot. An instance that is placed anew or dies while
    /// the broadcast runs leaves its slot to the instance at the end of its
    /// bin; where that instance still waits for the message, the same slot is
    /// walked again. A panic of the handler ends the broadcast.
    ///
    /// Each delivery hands the handler the state that its instance had at
    /// the start, and the world as the delivery before left it. An instance
    /// is gone at the end exactly where its handler answered that it dies,
    /// and its id is then freed in the world; any other has the state that
    /// its handler left. Only the last delivery can have ended in a panic,
    /// and the report says whether it did.
    pub fn receive_broadcast<H: Handler>(
        &mut self,
        packet: &Packet<Vec<u8>>,
        world: &mut World,
        handler: &H,
    ) -> (report: BroadcastReport)
        requires
            old(self).wf(),
        ensures
            final(self).wf(),
            broadcast_result(
                old(self).model(),
                final(self).model(),
                report.delivered@,
                !report.panicked,
            ),
            report.panicked ==> report.delivered@.len() >= 1,
            report.delivered@.len() == 0 ==> *final(world) == *old(world),
            broadcast_ran(
                handler,
                old(self).model(),
                final(self).model(),
                packet,
                *old(world),
                *final(world),
                report,
            ),
    {
        let ghost m0 = self.model();
        let ghost mut worlds: Seq<World> = seq![*world];
        let ghost mut answers: Seq<Result<Fate, Panicked>> = Seq::empty();
        let ghost mut afters: Seq<Seq<u8>> = Seq::empty();
        let ghost mut lefts: Seq<World> = Seq::empty();
        let mut delivered: Vec<RawID> = Vec::new();
        let lens = self.bin_lens();
        let ghost glens = lens@.map_values(|n: usize| n as int);
        let n_bins = lens.len();
        if n_bins == 0 {
            proof {
                lemma_walk_nothing(m0);
            }
            let report = BroadcastReport { delivered, panicked: false };
            proof {
                assert(broadcast_steps(
                    handler,
                    m0,
                    self.model(),
                    packet,
                    report.delivered@,
                    worlds,
                    answers,
                    afters,
                    lefts,
                    report.panicked,
                ));
            }
            return report;
        }
        let mut b: usize = 0;
        let mut slot: usize = 0;
        let mut end: usize = lens[0];
        proof {
            lemma_walk_start(m0, glens);
        }
        loop
            invariant_except_break
                self.slot_map.wf(),
                walking(m0, self.model(), delivered@, glens, b as int, slot as int, end as int),
                glens == lens@.map_values(|n: usize| n as int),
                n_bins == lens@.len(),
                b < n_bins,
            invariant
                m0 == old(self).model(),
                worlds.len() == delivered@.len() + 1,
                worlds[0] == *old(world),
                worlds[delivered@.len() as int] == *world,
                broadcast_steps(
                    handler,
                    m0,
                    self.model(),
                    packet,
                    delivered@,
                    worlds,
                    answers,
                    afters,
                    lefts,
                    false,
                ),
            ensures
                self.wf(),
                broadcast_result(m0, self.model(), delivered@, true),
            decreases n_bins - b, end - slot,
        {
            if slot >= end {
                if b + 1 >= n_bins {
                    proof {
                        lemma_walk_result(
                            m0,
                            self.model(),
                            delivered@,
                            glens,
                            b as int,
                            slot as int,
                            end as int,
                        );
                    }
                    break ;
                }
                proof {
                    lemma_walk_next_bin(m0, self.model(), delivered@, glens, b as int, end as int);
                }
                b = b + 1;
                slot = 0;
                end = lens[b];
                continue ;
            }
            let ghost m = self.model();
            let ghost b0 = b as int;
            let ghost s0 = slot as int;
            let ghost end0 = end as int;
            proof {
                lemma_walked_slot(m0, m, delivered@, glens, b0, s0, end0);
                m.lemma_slot_is_instance((-1, -1), b0, s0);
            }
            let id = self.bins[b][slot].instance.id;
            let ghost k0 = id.instance_id as int;
            let outcome = self.deliver_at(b, slot, packet, world, handler);
            let ghost m1 = self.model();
            let ghost state = m1.arena[b0][s0].state;
            let ghost before = delivered@;
            let ghost worlds0 = worlds;
            let ghost answers0 = answers;
            let ghost afters0 = afters;
            let ghost lefts0 = lefts;
            let ghost world_left = *world;
            delivered.push(id);
            let panicked = outcome.is_err();
            proof {
                m.lemma_set_state((-1, -1), b0, s0, state);
                lemma_bin_in_range(m1.base, self.bins[b0][s0].instance.state.len());
                if outcome == Ok::<Fate, Panicked>(Fate::Die) {
                    lemma_left_dead(m, glens, b0, s0, state);
                    lemma_step_left(m0, m, m1.remove(b0, s0), before, glens, b0, s0, end0);
                    m1.lemma_remove((b0, s0), b0, s0);
                } else if state.len() > m1.arena[b0][s0].slot_size {
                    m1.lemma_resize((b0, s0), b0, s0);
                    if bin_for_size(m1.base, state.len()) == b0 {
                        lemma_stayed_resized(m, b0, s0, state);
                        lemma_step_stayed(m0, m, m1.resize(b0, s0), before, glens, b0, s0, end0);
                    } else {
                        lemma_left_resized(m0, m, glens, b0, s0, end0, state);
                        lemma_step_left(m0, m, m1.resize(b0, s0), before, glens, b0, s0, end0);
                    }
                } else {
                    lemma_stayed_in_place(m, b0, s0, state);
                    lemma_step_stayed(m0, m, m1, before, glens, b0, s0, end0);
                }
            }
            let _ = self.settle(b, slot, outcome, world);
            proof {
                worlds = worlds.push(*world);
                answers = answers.push(outcome);
                afters = afters.push(state);
                lefts = lefts.push(world_left);
            }
            if self.bins[b].len() < end {
                end = end - 1;
            } else {
                slot = slot + 1;
            }
            proof {
                let inst = self.model().instances();
                assert(m0.instances()[k0] == m0.slot_of(k0));
                assert(m.slot_of(k0) == m.arena[b0][s0]);
                assert forall|i: int|
                    #![trigger answers[i]]
                    0 <= i < delivered@.len() implies {
                    &&& handled(
                        handler,
                        delivered@[i],
                        m0.instances()[delivered@[i].instance_id as int].state,
                        packet,
                        worlds[i],
                        answers[i],
                        afters[i],
                        lefts[i],
                    )
                    &&& answers[i] is Err <==> panicked && i == delivered@.len() - 1
                    &&& answers[i] == Ok::<Fate, Panicked>(Fate::Die) <==> !inst.dom().contains(
                        delivered@[i].instance_id as int,
                    )
                    &&& answers[i] == Ok::<Fate, Panicked>(Fate::Die) ==> freed(
                        lefts[i],
                        worlds[i + 1],
                        delivered@[i],
                    )
                    &&& answers[i] != Ok::<Fate, Panicked>(Fate::Die) ==> worlds[i + 1] == lefts[i]
                        && inst[delivered@[i].instance_id as int].state == afters[i]
                } by {
                    if i < before.len() {
                        let ki = before[i].instance_id as int;
                        assert(before[i] == delivered@[i]);
                        assert(before.contains(before[i]));
                        assert(ki != k0);
                        assert(worlds[i] == worlds0[i]);
                        assert(worlds[i + 1] == worlds0[i + 1]);
                        assert(answers[i] == answers0[i]);
                        assert(afters[i] == afters0[i]);
                        assert(lefts[i] == lefts0[i]);
                        assert(inst.dom().contains(ki) == m.instances().dom().contains(ki));
                        assert(inst.dom().contains(ki) ==> inst[ki] == m.instances()[ki]);
                    } else {
                        assert(delivered@[i] == id);
                        assert(answers[i] == outcome);
                        assert(worlds[i] == worlds0[i]);
                        assert(afters[i] == state);
                        assert(lefts[i] == world_left);
                    }
                }
                assert(broadcast_steps(
                    handler,
                    m0,
                    self.model(),
                    packet,
                    delivered@,
                    worlds,
                    answers,
                    afters,
                    lefts,
                    panicked,
                ));
            }
            if panicked {
                proof {
                    lemma_walk_result(
                        m0,
                        self.model(),
                        delivered@,
                        glens,
                        b as int,
                        slot as int,
                        end as int,
                    );
                }
                let report = BroadcastReport { delivered, panicked: true };
                proof {
                    assert(broadcast_steps(
                        handler,
                        m0,
                        self.model(),
                        packet,
                        report.delivered@,
                        worlds,
                        answers,
                        afters,
                        lefts,
                        report.panicked,
                    ));
                }
                return report;
            }
        }
        let report = BroadcastReport { delivered, panicked: false };
        proof {
            assert(broadcast_steps(
                handler,
                m0,
                self.model(),
                packet,
                report.delivered@,
                worlds,
                answers,
                afters,
                lefts,
                report.panicked,
            ));
        }
        report
    }
}

} // verus!
