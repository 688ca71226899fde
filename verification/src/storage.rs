//! Storage: the binding table of a module or of a nested scope, chained to
//! the storage of the scope around it.
use vstd::prelude::*;
use crate::bindings::{Bindings, Entry, EntryView};
use crate::id::{Id, IdView, Mark};
use crate::merge::{merge_into, merged_with};
use crate::module_id::{FileName, FileNameView, ModuleId};
use crate::ty::{clone_types, views, Type, TypeView};

verus! {

/// The mathematical value of a [`Found`].
pub enum FoundView {
    Missing,
    Cyclic,
    Unresolved,
    Candidates(Seq<TypeView>),
}

/// What a lookup came to.
#[derive(Debug)]
pub enum Found {
    /// No scope of the chain declares the identifier.
    Missing,
    /// The identifier is being resolved right now: the lookup has come round
    /// in a circle.
    Cyclic,
    /// The identifier is declared, but declarations of it still wait to be
    /// resolved, so its candidates are not final.
    Unresolved,
    /// The candidates of the innermost scope that declares the identifier,
    /// in merge order. There is at least one.
    Candidates(Vec<Type>),
}

impl View for Found {
    type V = FoundView;

    open spec fn view(&self) -> FoundView {
        match self {
            Found::Missing => FoundView::Missing,
            Found::Cyclic => FoundView::Cyclic,
            Found::Unresolved => FoundView::Unresolved,
            Found::Candidates(c) => FoundView::Candidates(views(c@)),
        }
    }
}

/// What a lookup that meets the entry `e` comes to. The marker of a
/// resolution in progress comes first, declarations that still wait come
/// next. An entry that holds nothing at all declares nothing: candidates are
/// only reported where there is at least one.
pub open spec fn entry_found(e: EntryView) -> FoundView {
    if e.in_progress {
        FoundView::Cyclic
    } else if e.deferred.len() > 0 {
        FoundView::Unresolved
    } else if e.resolved.len() == 0 {
        FoundView::Missing
    } else {
        FoundView::Candidates(e.resolved)
    }
}

/// The entry `e`, as a lookup reports it.
pub fn found_in(e: &Entry) -> (r: Found)
    ensures
        r@ == entry_found(e@),
{
    assert(views(e.deferred@).len() == e.deferred.len());
    assert(views(e.resolved@).len() == e.resolved.len());
    if e.in_progress {
        Found::Cyclic
    } else if e.deferred.len() > 0 {
        Found::Unresolved
    } else if e.resolved.len() == 0 {
        Found::Missing
    } else {
        Found::Candidates(clone_types(&e.resolved))
    }
}

/// The mathematical value of a [`Storage`]: its own table and the value of
/// the storage around it.
pub struct StorageView {
    pub parent: Option<Box<StorageView>>,
    pub id: ModuleId,
    pub top_level_mark: Mark,
    pub path: FileNameView,
    pub is_dts: bool,
    pub info: Map<IdView, EntryView>,
}

/// The bindings of one module or nested scope. A storage borrows the storage
/// of the scope around it and never owns it.
#[derive(Debug)]
pub struct Storage<'a> {
    pub parent: Option<&'a Storage<'a>>,
    pub id: ModuleId,
    pub top_level_mark: Mark,
    pub path: FileName,
    /// Whether the module only declares and has no code.
    pub is_dts: bool,
    pub info: Bindings,
}

/// The value of a storage.
pub open spec fn storage_model<'a>(s: Storage<'a>) -> StorageView
    decreases s,
{
    StorageView {
        parent: match s.parent {
            Some(p) => Some(Box::new(storage_model(*p))),
            None => None,
        },
        id: s.id,
        top_level_mark: s.top_level_mark,
        path: s.path@,
        is_dts: s.is_dts,
        info: s.info@,
    }
}

impl<'a> View for Storage<'a> {
    type V = StorageView;

    open spec fn view(&self) -> StorageView {
        storage_model(*self)
    }
}

/// The lookup of `id` along a chain: the entry of the innermost scope that
/// has one decides, and nothing further out is mixed in.
pub open spec fn lookup_spec(s: StorageView, id: IdView) -> FoundView
    decreases s,
{
    if s.info.contains_key(id) {
        entry_found(s.info[id])
    } else {
        match s.parent {
            Some(p) => lookup_spec(*p, id),
            None => FoundView::Missing,
        }
    }
}

/// The table after a resolved declaration of `id` as `t`: the candidates of
/// `id` with `t` merged in, or the table as it was where `t` cannot merge.
pub open spec fn declare_spec(info: Map<IdView, EntryView>, id: IdView, t: TypeView) -> Map<
    IdView,
    EntryView,
> {
    if info.contains_key(id) {
        match merged_with(info[id].resolved, t) {
            Some(c) => info.insert(id, EntryView { resolved: c, ..info[id] }),
            None => info,
        }
    } else {
        info.insert(
            id,
            EntryView { resolved: seq![t], deferred: Seq::empty(), in_progress: false },
        )
    }
}

/// Whether a resolved declaration of `id` as `t` merges with what `info`
/// holds.
pub open spec fn declare_accepts(info: Map<IdView, EntryView>, id: IdView, t: TypeView) -> bool {
    info.contains_key(id) ==> merged_with(info[id].resolved, t).is_some()
}

/// The table after `body` was registered as a declaration of `id` that is
/// still to be resolved.
pub open spec fn register_spec(info: Map<IdView, EntryView>, id: IdView, body: TypeView) -> Map<
    IdView,
    EntryView,
> {
    if info.contains_key(id) {
        info.insert(id, EntryView { deferred: info[id].deferred.push(body), ..info[id] })
    } else {
        info.insert(
            id,
            EntryView { resolved: Seq::empty(), deferred: seq![body], in_progress: false },
        )
    }
}

impl<'a> Storage<'a> {
    /// A storage with an empty table.
    pub fn new(
        parent: Option<&'a Storage<'a>>,
        id: ModuleId,
        top_level_mark: Mark,
        path: FileName,
        is_dts: bool,
    ) -> (s: Storage<'a>)
        ensures
            s.parent == parent,
            s.id == id,
            s.top_level_mark == top_level_mark,
            s.path == path,
            s.is_dts == is_dts,
            s.info@ == Map::<IdView, EntryView>::empty(),
    {
        Storage { parent, id, top_level_mark, path, is_dts, info: Bindings::new() }
    }

    /// Adds the candidate `t` for `id` in this scope. Where `id` has
    /// candidates already, `t` merges with them; where it cannot, the table
    /// stays as it was and the result is `false`.
    pub fn declare(&mut self, id: Id, t: Type) -> (accepted: bool)
        ensures
            accepted == declare_accepts(old(self).info@, id@, t@),
            final(self).info@ == declare_spec(old(self).info@, id@, t@),
            final(self)@ == (StorageView { info: final(self).info@, ..old(self)@ }),
    {
        let (mut entry, fresh) = match self.info.get(&id) {
            Some(e) => (e.clone(), false),
            None => (Entry { resolved: Vec::new(), deferred: Vec::new(), in_progress: false }, true),
        };
        assert(fresh ==> views(entry.resolved@) =~= Seq::<TypeView>::empty());
        assert(fresh ==> views(entry.deferred@) =~= Seq::<TypeView>::empty());
        let accepted = merge_into(&mut entry.resolved, t);
        if accepted {
            self.info.set(id, entry);
        }
        accepted
    }

    /// Registers `body` as a declaration of `id` that is resolved when it is
    /// first asked for.
    pub fn register(&mut self, id: Id, body: Type)
        ensures
            final(self).info@ == register_spec(old(self).info@, id@, body@),
            final(self)@ == (StorageView { info: final(self).info@, ..old(self)@ }),
    {
        let mut entry = match self.info.get(&id) {
            Some(e) => e.clone(),
            None => Entry { resolved: Vec::new(), deferred: Vec::new(), in_progress: false },
        };
        let ghost before = views(entry.deferred@);
        let ghost b = body@;
        entry.deferred.push(body);
        assert(views(entry.deferred@) =~= before.push(b));
        assert(!old(self).info@.contains_key(id@) ==> views(entry.resolved@) =~= Seq::<
            TypeView,
        >::empty() && views(entry.deferred@) =~= seq![b]);
        self.info.set(id, entry);
    }

    /// Looks `id` up in this scope and then, on a miss, scope by scope
    /// outwards.
    pub fn lookup(&self, id: &Id) -> (r: Found)
        ensures
            r@ == lookup_spec(self@, id@),
        decreases self,
    {
        match self.info.get(id) {
            Some(e) => found_in(e),
            None => match self.parent {
                Some(p) => p.lookup(id),
                None => Found::Missing,
            },
        }
    }
}

} // verus!
