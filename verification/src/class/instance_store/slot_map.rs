use crate::tuning::Tuning;
use crate::world::next_version;
use vstd::prelude::*;

verus! {

/// Where an instance lies in its class's storage: a bin and a slot of that bin.
#[derive(Copy, Clone, PartialEq, Eq, Structural, Debug)]
pub struct SlotIndices {
    bin: u8,
    slot: u32,
}

impl SlotIndices {
    /// The bin.
    pub closed spec fn spec_bin(&self) -> nat {
        self.bin as nat
    }

    /// The slot of the bin.
    pub closed spec fn spec_slot(&self) -> nat {
        self.slot as nat
    }

    /// Whether these are the indices of a slot, and not the mark of an id without instance.
    pub open spec fn is_valid(&self) -> bool {
        !(self.spec_bin() == 0xFF && self.spec_slot() == 0xFFFF_FFFF)
    }

    /// The indices of the slot `slot` of the bin `bin`.
    pub closed spec fn at(bin: int, slot: int) -> SlotIndices {
        SlotIndices { bin: (bin % 0x100) as u8, slot: (slot % 0x1_0000_0000) as u32 }
    }

    /// `at` keeps a bin below 256 and a slot below 2^32 as they are.
    pub proof fn lemma_at(bin: int, slot: int)
        requires
            0 <= bin < 0x100,
            0 <= slot < 0x1_0000_0000,
        ensures
            Self::at(bin, slot).spec_bin() == bin,
            Self::at(bin, slot).spec_slot() == slot,
    {
    }

    /// The indices of a bin and a slot. Only the low 8 bits of the bin and
    /// the low 32 bits of the slot are kept.
    pub fn new(bin: usize, slot: usize) -> (r: SlotIndices)
        ensures
            r == Self::at(bin as int, slot as int),
            r.spec_bin() == (bin as int) % 0x100,
            r.spec_slot() == (slot as int) % 0x1_0000_0000,
    {
        SlotIndices { bin: (bin % 0x100) as u8, slot: (slot as u64 % 0x1_0000_0000u64) as u32 }
    }

    /// The mark of an id that has no instance.
    pub closed spec fn spec_invalid() -> SlotIndices {
        SlotIndices { bin: 0xFF, slot: 0xFFFF_FFFF }
    }

    /// The mark of no instance is not the indices of a slot.
    pub proof fn lemma_invalid()
        ensures
            !Self::spec_invalid().is_valid(),
            Self::spec_invalid().spec_bin() == 0xFF,
    {
    }

    /// The mark of an id that has no instance.
    #[verifier::when_used_as_spec(spec_invalid)]
    pub fn invalid() -> (r: SlotIndices)
        ensures
            r == Self::spec_invalid(),
            !r.is_valid(),
            r.spec_bin() == 0xFF,
            r.spec_slot() == 0xFFFF_FFFF,
    {
        SlotIndices { bin: u8::MAX, slot: u32::MAX }
    }

    /// Whether these are the indices of a slot.
    pub fn exec_is_valid(&self) -> (b: bool)
        ensures
            b == self.is_valid(),
    {
        !(self.bin == u8::MAX && self.slot == u32::MAX)
    }

    /// The bin.
    pub fn bin(&self) -> (b: usize)
        ensures
            b == self.spec_bin(),
            b < 0x100,
    {
        self.bin as usize
    }

    /// The slot of the bin.
    pub fn slot(&self) -> (s: usize)
        ensures
            s == self.spec_slot(),
            s < 0x1_0000_0000,
    {
        self.slot as usize
    }
}

/// The number of entries that are the indices of a slot.
pub open spec fn valid_count(entries: Seq<SlotIndices>) -> nat
    decreases entries.len(),
{
    if entries.len() == 0 {
        0
    } else {
        valid_count(entries.drop_last()) + if entries.last().is_valid() {
            1nat
        } else {
            0nat
        }
    }
}

/// There are no more valid entries than entries.
pub proof fn lemma_valid_count_bound(entries: Seq<SlotIndices>)
    ensures
        valid_count(entries) <= entries.len(),
    decreases entries.len(),
{
    if entries.len() > 0 {
        lemma_valid_count_bound(entries.drop_last());
    }
}

/// A further entry counts where it is valid.
pub proof fn lemma_valid_count_push(entries: Seq<SlotIndices>, e: SlotIndices)
    ensures
        valid_count(entries.push(e)) == valid_count(entries) + if e.is_valid() {
            1nat
        } else {
            0nat
        },
{
    assert(entries.push(e).drop_last() =~= entries);
}

/// Replacing an entry changes the count by whether the old and the new entry are valid.
pub proof fn lemma_valid_count_update(entries: Seq<SlotIndices>, k: int, e: SlotIndices)
    requires
        0 <= k < entries.len(),
    ensures
        valid_count(entries.update(k, e)) + (if entries[k].is_valid() {
            1nat
        } else {
            0nat
        }) == valid_count(entries) + if e.is_valid() {
            1nat
        } else {
            0nat
        },
    decreases entries.len(),
{
    let u = entries.update(k, e);
    if k == entries.len() - 1 {
        assert(u.drop_last() =~= entries.drop_last());
    } else {
        assert(u.drop_last() =~= entries.drop_last().update(k, e));
        lemma_valid_count_update(entries.drop_last(), k, e);
    }
}

/// Gives each instance id of a class the place of its instance, and the
/// version under which the id is in use. A message to an id with an older
/// version finds nothing: its recipient has died.
pub struct SlotMap {
    entries: Vec<SlotIndices>,
    last_known_version: Vec<u8>,
}

impl SlotMap {
    /// The place of each id's instance; the mark of no instance where the id has none.
    pub closed spec fn entries(&self) -> Seq<SlotIndices> {
        self.entries@
    }

    /// The version under which each id is in use, or will next be.
    pub closed spec fn versions(&self) -> Seq<u8> {
        self.last_known_version@
    }

    /// Every known id has an entry and a version, and ids fit 32 bits.
    pub open spec fn wf(&self) -> bool {
        &&& self.entries().len() == self.versions().len()
        &&& self.entries().len() <= 0xFFFF_FFFF
    }

    /// Whether an id is known and in use under a version, or will next be.
    pub open spec fn in_use(&self, id: int, version: u8) -> bool {
        &&& 0 <= id < self.versions().len()
        &&& self.versions()[id] == version
    }

    /// A slot map that knows no id.
    pub fn new(tuning: &Tuning) -> (m: SlotMap)
        ensures
            m.wf(),
            m.entries().len() == 0,
    {
        SlotMap { entries: Vec::new(), last_known_version: Vec::new() }
    }

    /// The number of ids that are known: every id below it has an entry.
    pub fn len(&self) -> (n: usize)
        requires
            self.wf(),
        ensures
            n == self.entries().len(),
    {
        self.entries.len()
    }

    /// Makes every id below `n` known. A new id has no instance and version 0.
    pub fn reserve(&mut self, n: u32)
        requires
            old(self).wf(),
        ensures
            final(self).wf(),
            final(self).entries().len() == if n > old(self).entries().len() {
                n as nat
            } else {
                old(self).entries().len()
            },
            final(self).entries().subrange(0, old(self).entries().len() as int) == old(self).entries(),
            final(self).versions().subrange(0, old(self).entries().len() as int) == old(self).versions(),
            forall|k: int|
                old(self).entries().len() <= k < final(self).entries().len() ==> !(
                #[trigger] final(self).entries()[k]).is_valid() && final(self).versions()[k] == 0,
            valid_count(final(self).entries()) == valid_count(old(self).entries()),
    {
        while self.entries.len() < n as usize
            invariant
                self.wf(),
                self.entries().len() >= old(self).entries().len(),
                self.entries().len() <= n || self.entries().len() == old(self).entries().len(),
                self.entries().subrange(0, old(self).entries().len() as int) == old(self).entries(),
                self.versions().subrange(0, old(self).entries().len() as int) == old(self).versions(),
                forall|k: int|
                    old(self).entries().len() <= k < self.entries().len() ==> !(
                    #[trigger] self.entries()[k]).is_valid(),
                forall|k: int|
                    old(self).entries().len() <= k < self.entries().len() ==> (
                    #[trigger] self.versions()[k]) == 0,
                valid_count(self.entries()) == valid_count(old(self).entries()),
            decreases n - self.entries().len(),
        {
            let ghost before = self.entries();
            let ghost versions_before = self.versions();
            let mark = SlotIndices::invalid();
            self.entries.push(mark);
            self.last_known_version.push(0);
            proof {
                assert(!mark.is_valid());
                assert(self.entries()[self.entries().len() - 1] == mark);
                assert forall|k: int|
                    old(self).entries().len() <= k < self.entries().len() implies !(
                #[trigger] self.entries()[k]).is_valid() by {
                    if k < before.len() {
                        assert(self.entries()[k] == before[k]);
                    }
                }
                assert forall|k: int|
                    old(self).entries().len() <= k < self.entries().len() implies (
                #[trigger] self.versions()[k]) == 0 by {
                    if k < versions_before.len() {
                        assert(self.versions()[k] == versions_before[k]);
                    }
                }
                lemma_valid_count_push(before, mark);
                assert(self.entries().subrange(0, old(self).entries().len() as int)
                    =~= before.subrange(0, old(self).entries().len() as int));
                assert(self.versions().subrange(0, old(self).entries().len() as int)
                    =~= versions_before.subrange(0, old(self).entries().len() as int));
            }
        }
        proof {
            assert(self.entries().subrange(0, old(self).entries().len() as int) =~= old(self).entries());
        }
    }

    /// Records where the instance of a known id lies.
    pub fn associate(&mut self, id: usize, new_entry: SlotIndices)
        requires
            old(self).wf(),
            id < old(self).entries().len(),
        ensures
            final(self).wf(),
            final(self).entries() == old(self).entries().update(id as int, new_entry),
            final(self).versions() == old(self).versions(),
    {
        self.entries[id] = new_entry;
    }

    /// The entry of an id that is known under the given version. The
    /// version is the only test: a message to an id with an older version
    /// finds nothing. The entry is handed out as it is; it is the mark of no
    /// instance where the id was handed out and its instance is not yet
    /// placed.
    pub fn indices_of(&self, id: usize, version: u8) -> (r: Option<SlotIndices>)
        requires
            self.wf(),
        ensures
            r is Some <==> self.in_use(id as int, version),
            r matches Some(i) ==> i == self.entries()[id as int],
    {
        if id < self.last_known_version.len() {
            if self.last_known_version[id] == version {
                Some(self.entries[id])
            } else {
                None
            }
        } else {
            None
        }
    }

    /// The entry of a known id, whatever its version; it may be the mark of no instance.
    pub fn indices_of_no_version_check(&self, id: usize) -> (r: Option<SlotIndices>)
        requires
            self.wf(),
        ensures
            r is Some <==> id < self.entries().len(),
            r matches Some(i) ==> i == self.entries()[id as int],
    {
        if id < self.entries.len() {
            Some(self.entries[id])
        } else {
            None
        }
    }

    /// The version under which a known id is in use, or will next be.
    pub fn version_of(&self, id: usize) -> (r: Option<u8>)
        requires
            self.wf(),
        ensures
            r is Some <==> id < self.entries().len(),
            r matches Some(v) ==> v == self.versions()[id as int],
    {
        if id < self.last_known_version.len() {
            Some(self.last_known_version[id])
        } else {
            None
        }
    }

    /// Ends the use of a known id under the given version: the id has no
    /// instance any more and is next used with the following version. The
    /// ids that wait for reuse are kept by the `IdAllocator` of the class,
    /// which the world holds so that handlers can ask for ids: the caller
    /// hands the id on to `IdAllocator::free`, which puts it on top of the
    /// waiting ids under the following version.
    pub fn free(&mut self, id: usize, version: u8)
        requires
            old(self).wf(),
            id < old(self).entries().len(),
        ensures
            final(self).wf(),
            final(self).entries() == old(self).entries().update(id as int, SlotIndices::invalid()),
            final(self).versions() == old(self).versions().update(
                id as int,
                next_version(version),
            ),
    {
        self.last_known_version[id] = version.wrapping_add(1);
        self.entries[id] = SlotIndices::invalid();
    }
}

} // verus!
