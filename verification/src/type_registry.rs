use vstd::prelude::*;

verus! {

/// The dense 16-bit id of a registered actor class, actor trait or message
/// type. Zero is never an id: on the wire it marks a control frame.
#[derive(Copy, Clone, PartialEq, Eq, Structural, Debug, Hash)]
pub struct ShortTypeId {
    id: u16,
}

impl View for ShortTypeId {
    type V = u16;

    closed spec fn view(&self) -> u16 {
        self.id
    }
}

impl ShortTypeId {
    #[verifier::type_invariant]
    spec fn is_nonzero(&self) -> bool {
        self.id != 0
    }

    /// The id with the given number, unless the number is zero.
    pub fn new(id: u16) -> (r: Option<ShortTypeId>)
        ensures
            id == 0 <==> r is None,
            r matches Some(t) ==> t@ == id,
    {
        if id == 0 {
            None
        } else {
            Some(ShortTypeId { id })
        }
    }

    /// The id as a number.
    pub fn as_u16(&self) -> (n: u16)
        ensures
            n == self@,
            n != 0,
    {
        proof {
            use_type_invariant(self);
        }
        self.id
    }

    /// The id as an index.
    pub fn as_usize(&self) -> (n: usize)
        ensures
            n == self@,
            n != 0,
    {
        proof {
            use_type_invariant(self);
        }
        self.id as usize
    }
}

/// Assigns ids to type names in the order of their first registration,
/// starting at 1, so that peers which register the same names in the same
/// order agree on every id.
pub struct TypeRegistry {
    names: Vec<String>,
    limit: usize,
}

impl TypeRegistry {
    /// The registered names in registration order: the name at index `i` owns id `i + 1`.
    pub closed spec fn names(&self) -> Seq<Seq<char>> {
        self.names@.map_values(|s: String| s@)
    }

    /// One more than the largest id this registry hands out.
    pub closed spec fn limit(&self) -> nat {
        self.limit as nat
    }

    /// There is room for the names below the limit, ids fit 16 bits, and
    /// no name is registered twice.
    pub open spec fn wf(&self) -> bool {
        &&& self.names().len() < self.limit()
        &&& self.limit() <= 0x1_0000
        &&& forall|i: int, j: int|
            0 <= i < j < self.names().len() ==> #[trigger] self.names()[i] != #[trigger] self.names()[j]
    }

    /// Whether `name` has an id.
    pub open spec fn knows(&self, name: Seq<char>) -> bool {
        self.names().contains(name)
    }

    /// The id of a registered name.
    pub open spec fn id_of(&self, name: Seq<char>) -> int {
        self.names().index_of(name) + 1
    }

    /// Whether no further name can be registered.
    pub open spec fn is_full(&self) -> bool {
        self.names().len() + 1 >= self.limit()
    }

    /// A registry without names whose ids stay below `limit`.
    pub fn new(limit: usize) -> (r: TypeRegistry)
        requires
            1 <= limit <= 0x1_0000,
        ensures
            r.wf(),
            r.names() == Seq::<Seq<char>>::empty(),
            r.limit() == limit,
    {
        let r = TypeRegistry { names: Vec::new(), limit };
        assert(r.names() =~= Seq::<Seq<char>>::empty());
        r
    }

    /// The number of registered names.
    pub fn len(&self) -> (n: usize)
        ensures
            n == self.names().len(),
    {
        self.names.len()
    }

    /// One more than the largest id this registry hands out.
    pub fn id_limit(&self) -> (n: usize)
        ensures
            n == self.limit(),
    {
        self.limit
    }

    fn position(&self, name: &String) -> (r: Option<usize>)
        requires
            self.wf(),
        ensures
            r is Some <==> self.knows(name@),
            r matches Some(i) ==> i < self.names().len() && self.names()[i as int] == name@
                && i + 1 == self.id_of(name@),
    {
        let mut i: usize = 0;
        while i < self.names.len()
            invariant
                self.wf(),
                i <= self.names.len(),
                forall|k: int| 0 <= k < i ==> self.names()[k] != name@,
            decreases self.names.len() - i,
        {
            if self.names[i] == *name {
                assert(self.names()[i as int] == name@);
                proof {
                    self.lemma_index(i as int);
                }
                return Some(i);
            }
            assert(self.names()[i as int] == self.names[i as int]@);
            i += 1;
        }
        assert(!self.names().contains(name@));
        None
    }

    proof fn lemma_index(&self, i: int)
        requires
            self.wf(),
            0 <= i < self.names().len(),
        ensures
            self.names().index_of(self.names()[i]) == i,
    {
        let s = self.names();
        let k = s.index_of(s[i]);
        assert(s.contains(s[i]));
        assert(0 <= k < s.len() && s[k] == s[i]);
        if k < i {
            assert(s[k] != s[i]);
        } else if i < k {
            assert(s[i] != s[k]);
        }
    }

    /// The id of `name`, if it is registered.
    pub fn get(&self, name: &str) -> (r: Option<ShortTypeId>)
        requires
            self.wf(),
        ensures
            r is Some <==> self.knows(name@),
            r matches Some(id) ==> id@ == self.id_of(name@) && 1 <= id@ <= self.names().len()
                && self.names()[id@ - 1] == name@,
    {
        let owned = String::from_str(name);
        match self.position(&owned) {
            Some(i) => ShortTypeId::new((i + 1) as u16),
            None => None,
        }
    }

    /// The id of `name`, which is registered first if it is new. A new name
    /// gets the next free id; `None` means that the registry is full.
    pub fn get_or_register(&mut self, name: &str) -> (r: Option<ShortTypeId>)
        requires
            old(self).wf(),
        ensures
            final(self).wf(),
            final(self).limit() == old(self).limit(),
            old(self).knows(name@) ==> final(self).names() == old(self).names() && r is Some,
            !old(self).knows(name@) && old(self).is_full() ==> final(self).names() == old(self).names() && r is None,
            !old(self).knows(name@) && !old(self).is_full() ==> final(self).names() == old(self).names().push(name@) && r is Some,
            r matches Some(id) ==> final(self).knows(name@) && id@ == final(self).id_of(name@) && 1
                <= id@ <= final(self).names().len() && final(self).names()[id@ - 1] == name@,
            !old(self).knows(name@) && !old(self).is_full() ==> (r matches Some(id) && id@ == old(self).names().len() + 1),
    {
        let owned = String::from_str(name);
        match self.position(&owned) {
            Some(i) => ShortTypeId::new((i + 1) as u16),
            None => {
                if self.names.len() + 2 > self.limit {
                    return None;
                }
                let ghost before = self.names();
                self.names.push(owned);
                assert(self.names() =~= before.push(name@));
                let n = self.names.len();
                proof {
                    assert forall|i: int, j: int| 0 <= i < j < self.names().len() implies #[trigger] self.names()[i]
                        != #[trigger] self.names()[j] by {
                        if j == n - 1 {
                            assert(before[i] == self.names()[i]);
                            assert(before.contains(before[i]));
                        } else {
                            assert(before[i] != before[j]);
                        }
                    }
                    assert(self.wf());
                    self.lemma_index(n - 1);
                }
                ShortTypeId::new(n as u16)
            },
        }
    }

    /// The name that owns `id`, if any does.
    pub fn get_name(&self, id: ShortTypeId) -> (r: Option<&String>)
        ensures
            r is Some <==> id@ <= self.names().len(),
            r matches Some(s) ==> s@ == self.names()[id@ - 1],
    {
        let i = id.as_usize();
        if i <= self.names.len() {
            Some(&self.names[i - 1])
        } else {
            None
        }
    }
}

} // verus!
