//! The binding table of one scope: what each identifier declared there
//! stands for.
use vstd::prelude::*;
use crate::id::{Id, IdView};
use crate::ty::{clone_types, views, Type, TypeView};

verus! {

/// The mathematical value of an [`Entry`].
pub struct EntryView {
    pub resolved: Seq<TypeView>,
    pub deferred: Seq<TypeView>,
    pub in_progress: bool,
}

/// What a scope knows of one identifier.
#[derive(Debug)]
pub struct Entry {
    /// The candidate types, in the order in which their declarations merged.
    pub resolved: Vec<Type>,
    /// Declarations that were registered and wait to be resolved.
    pub deferred: Vec<Type>,
    /// Set while the deferred declarations are being resolved: a lookup that
    /// meets it has come round in a circle.
    pub in_progress: bool,
}

impl View for Entry {
    type V = EntryView;

    open spec fn view(&self) -> EntryView {
        EntryView {
            resolved: views(self.resolved@),
            deferred: views(self.deferred@),
            in_progress: self.in_progress,
        }
    }
}

impl Clone for Entry {
    fn clone(&self) -> (r: Entry)
        ensures
            r@ == self@,
    {
        Entry {
            resolved: clone_types(&self.resolved),
            deferred: clone_types(&self.deferred),
            in_progress: self.in_progress,
        }
    }
}

#[derive(Debug)]
struct Slot {
    id: Id,
    entry: Entry,
}

/// A table from identifiers to entries. No identifier occurs twice.
#[derive(Debug)]
pub struct Bindings {
    slots: Vec<Slot>,
}

impl View for Bindings {
    type V = Map<IdView, EntryView>;

    closed spec fn view(&self) -> Map<IdView, EntryView> {
        Map::new(
            |k: IdView| exists|i: int| self.holds(i, k),
            |k: IdView| self.slots[self.slot_of(k)].entry@,
        )
    }
}

impl Clone for Bindings {
    fn clone(&self) -> (r: Bindings)
        ensures
            r@ == self@,
    {
        self.duplicate()
    }
}

impl Bindings {
    #[verifier::type_invariant]
    spec fn unique(self) -> bool {
        forall|i: int, j: int|
            0 <= i < j < self.slots.len() ==> self.slots[i].id@ != self.slots[j].id@
    }

    spec fn holds(&self, i: int, k: IdView) -> bool {
        0 <= i < self.slots.len() && self.slots[i].id@ == k
    }

    spec fn slot_of(&self, k: IdView) -> int {
        choose|i: int| self.holds(i, k)
    }

    proof fn lemma_slot(&self, i: int)
        requires
            self.unique(),
            0 <= i < self.slots.len(),
        ensures
            self@.contains_key(self.slots[i].id@),
            self@[self.slots[i].id@] == self.slots[i].entry@,
    {
        let k = self.slots[i].id@;
        assert(self.holds(i, k));
        let c = self.slot_of(k);
        assert(self.holds(c, k));
        assert(c == i);
    }

    /// A copy of the table: the same entries for the same identifiers.
    pub fn duplicate(&self) -> (r: Bindings)
        ensures
            r@ == self@,
    {
        proof {
            use_type_invariant(self);
        }
        let mut slots: Vec<Slot> = Vec::new();
        let mut i: usize = 0;
        while i < self.slots.len()
            invariant
                i <= self.slots.len(),
                slots.len() == i,
                forall|j: int|
                    0 <= j < i ==> slots[j].id@ == self.slots[j].id@ && slots[j].entry@
                        == self.slots[j].entry@,
            decreases self.slots.len() - i,
        {
            let s = &self.slots[i];
            slots.push(Slot { id: s.id.clone(), entry: s.entry.clone() });
            i += 1;
        }
        let r = Bindings { slots };
        assert(r@ =~= self@) by {
            assert forall|k: IdView| r@.contains_key(k) == self@.contains_key(k) by {
                if r@.contains_key(k) {
                    assert(self.holds(r.slot_of(k), k));
                }
                if self@.contains_key(k) {
                    assert(r.holds(self.slot_of(k), k));
                }
            }
            assert forall|k: IdView| r@.contains_key(k) implies r@[k] == self@[k] by {
                let c = r.slot_of(k);
                r.lemma_slot(c);
                self.lemma_slot(c);
            }
        }
        r
    }

    /// An empty table.
    pub fn new() -> (b: Bindings)
        ensures
            b@ == Map::<IdView, EntryView>::empty(),
    {
        let b = Bindings { slots: Vec::new() };
        assert(b@ =~= Map::<IdView, EntryView>::empty());
        b
    }

    fn position(&self, id: &Id) -> (r: Option<usize>)
        ensures
            match r {
                Some(i) => self.holds(i as int, id@),
                None => forall|j: int| !self.holds(j, id@),
            },
    {
        let mut i: usize = 0;
        while i < self.slots.len()
            invariant
                i <= self.slots.len(),
                forall|j: int| 0 <= j < i ==> !self.holds(j, id@),
            decreases self.slots.len() - i,
        {
            if self.slots[i].id.same(id) {
                return Some(i);
            }
            i += 1;
        }
        None
    }

    /// The entry of `id`, if the table has one.
    pub fn get(&self, id: &Id) -> (r: Option<&Entry>)
        ensures
            match r {
                Some(e) => self@.contains_key(id@) && self@[id@] == e@,
                None => !self@.contains_key(id@),
            },
    {
        proof {
            use_type_invariant(self);
        }
        match self.position(id) {
            Some(i) => {
                proof {
                    self.lemma_slot(i as int);
                }
                Some(&self.slots[i].entry)
            },
            None => None,
        }
    }

    /// Whether the table has an entry for `id`.
    pub fn contains(&self, id: &Id) -> (r: bool)
        ensures
            r == self@.contains_key(id@),
    {
        self.get(id).is_some()
    }

    /// Gives `id` the entry `entry`, in place of the one it had, if any.
    pub fn set(&mut self, id: Id, entry: Entry)
        ensures
            final(self)@ == old(self)@.insert(id@, entry@),
    {
        proof {
            use_type_invariant(&*self);
        }
        let ghost before = *self;
        let ghost key = id@;
        let ghost val = entry@;
        let found = self.position(&id);
        let mut taken = Bindings { slots: Vec::new() };
        core::mem::swap(self, &mut taken);
        let Bindings { slots } = taken;
        let mut slots = slots;
        match found {
            Some(i) => {
                slots.set(i, Slot { id, entry });
                *self = Bindings { slots };
                assert forall|k: IdView| self@.contains_key(k) == before@.insert(key, val).contains_key(k) by {
                    if self@.contains_key(k) {
                        let c = self.slot_of(k);
                        assert(before.holds(c, k));
                    }
                    if before@.contains_key(k) {
                        let c = before.slot_of(k);
                        assert(self.holds(c, k));
                    }
                    if k == key {
                        assert(self.holds(i as int, k));
                    }
                }
                assert forall|k: IdView| self@.contains_key(k) implies self@[k] == before@.insert(key, val)[k] by {
                    let c = self.slot_of(k);
                    self.lemma_slot(c);
                    if k != key {
                        before.lemma_slot(c);
                    }
                }
                assert(self@ =~= before@.insert(key, val));
            },
            None => {
                slots.push(Slot { id, entry });
                let ghost n = before.slots.len() as int;
                assert forall|i: int, j: int| 0 <= i < j < slots.len() implies slots[i].id@ != slots[j].id@ by {
                    if j == n {
                        assert(!before.holds(i, key));
                    }
                }
                *self = Bindings { slots };
                assert(self.unique()) by {
                    assert forall|i: int, j: int| 0 <= i < j < self.slots.len() implies self.slots[i].id@ != self.slots[j].id@ by {
                        if j == n {
                            assert(!before.holds(i, key));
                        }
                    }
                }
                assert forall|k: IdView| self@.contains_key(k) == before@.insert(key, val).contains_key(k) by {
                    if self@.contains_key(k) {
                        let c = self.slot_of(k);
                        if c < n {
                            assert(before.holds(c, k));
                        }
                    }
                    if before@.contains_key(k) {
                        let c = before.slot_of(k);
                        assert(self.holds(c, k));
                    }
                    if k == key {
                        assert(self.holds(n, k));
                    }
                }
                assert forall|k: IdView| self@.contains_key(k) implies self@[k] == before@.insert(key, val)[k] by {
                    let c = self.slot_of(k);
                    self.lemma_slot(c);
                    if k != key {
                        assert(c < n);
                        before.lemma_slot(c);
                    }
                }
                assert(self@ =~= before@.insert(key, val));
            },
        }
    }
}

} // verus!
