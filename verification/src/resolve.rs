//! What resolution means, as mathematics: the functions that the analyzer's
//! contracts speak of.
//!
//! Resolution threads a [`State`] (the local binding table and the
//! diagnostics) through the declarations it visits. What lies beyond the
//! local table, the [`Outer`] scopes, is only read. Every nested step spends
//! one unit of `budget`; a step with no budget left fails.
use vstd::prelude::*;
use crate::bindings::EntryView;
use crate::id::IdView;
use crate::merge::merged_with;
use crate::module::DeclView;
use crate::storage::{
    declare_accepts, declare_spec, entry_found, lookup_spec, register_spec, FoundView,
    StorageView,
};
use crate::ty::{subst, Keyword, TypeView};

verus! {

/// A failure of the engine itself, as opposed to a fault of the analysed
/// program.
#[derive(Clone, Copy, Debug, PartialEq, Eq, Structural)]
pub enum EngineError {
    /// Resolution nested deeper than the configured maximum.
    DepthExceeded,
    /// An identifier was marked as being resolved although no resolution was
    /// under way.
    InvariantViolated,
}

/// The mathematical value of a diagnostic.
pub enum DiagnosticView {
    NameNotFound(IdView),
    IllegalCycle(IdView),
    Redeclared(IdView),
    ResourceExhausted(IdView),
    Internal(IdView),
}

/// The scopes beyond the local table: the chain of parents, and behind it
/// the built-in declarations.
pub struct Outer {
    pub parent: Option<Box<StorageView>>,
    pub global: Map<IdView, EntryView>,
}

/// What resolution changes: the local table and the diagnostics.
pub struct State {
    pub info: Map<IdView, EntryView>,
    pub diagnostics: Seq<DiagnosticView>,
}

/// The lookup of `id` beyond the local table: the parent chain first, the
/// built-in declarations on a miss.
pub open spec fn outer_lookup(o: Outer, id: IdView) -> FoundView {
    let via_parent = match o.parent {
        Some(p) => lookup_spec(*p, id),
        None => FoundView::Missing,
    };
    if via_parent is Missing {
        if o.global.contains_key(id) {
            entry_found(o.global[id])
        } else {
            FoundView::Missing
        }
    } else {
        via_parent
    }
}

/// The state with one more diagnostic.
pub open spec fn report(st: State, d: DiagnosticView) -> State {
    State { diagnostics: st.diagnostics.push(d), ..st }
}

/// The state in which `id` has the entry `e`.
pub open spec fn with_entry(st: State, id: IdView, e: EntryView) -> State {
    State { info: st.info.insert(id, e), ..st }
}

/// The one type that a reference to an identifier with the candidates `c`
/// stands for: the candidate itself where there is one, else the
/// intersection of all of them.
pub open spec fn collapse(c: Seq<TypeView>) -> TypeView {
    if c.len() == 1 {
        c[0]
    } else {
        TypeView::Intersection(c)
    }
}

/// What the generic declaration `declared` stands for with the arguments
/// `args`: its body with the arguments in place of the parameters. `None`
/// where `declared` is not generic, or has another number of parameters: a
/// reference with such arguments stays as it is written.
pub open spec fn instance(declared: TypeView, args: Seq<TypeView>) -> Option<TypeView> {
    match declared {
        TypeView::Generic { type_params, body } => if type_params.len() == args.len() {
            Some(subst(*body, type_params, args))
        } else {
            None
        },
        _ => None,
    }
}

/// Merges the types `ts[i..]` one after the other into `candidates`. A type
/// that cannot merge is dropped and reported as a redeclaration of `id`.
pub open spec fn settle(
    candidates: Seq<TypeView>,
    diagnostics: Seq<DiagnosticView>,
    id: IdView,
    ts: Seq<TypeView>,
    i: nat,
) -> (Seq<TypeView>, Seq<DiagnosticView>)
    decreases ts.len() - i,
{
    if i >= ts.len() {
        (candidates, diagnostics)
    } else {
        match merged_with(candidates, ts[i as int]) {
            Some(c) => settle(c, diagnostics, id, ts, i + 1),
            None => settle(
                candidates,
                diagnostics.push(DiagnosticView::Redeclared(id)),
                id,
                ts,
                i + 1,
            ),
        }
    }
}

/// Resolves a type. A reference is replaced by what its identifier stands
/// for; where it has type arguments and stands for a generic declaration
/// with as many parameters, the arguments are put in place of the
/// parameters and the outcome is resolved in turn. The operands of unions
/// and intersections are resolved one by one. Every other type is a
/// boundary behind which resolution is left for later, so that a shape may
/// mention its own name. A reference to an undeclared name, or to a name
/// that is being resolved, is reported and becomes `any`.
pub open spec fn resolve_type(o: Outer, st: State, t: TypeView, budget: nat) -> (
    State,
    Result<TypeView, EngineError>,
)
    decreases budget, 0nat,
{
    if budget == 0 {
        (st, Err(EngineError::DepthExceeded))
    } else {
        match t {
            TypeView::Ref { id, args } => {
                let (s1, r) = resolve_id(o, st, id, (budget - 1) as nat);
                match r {
                    Err(e) => (s1, Err(e)),
                    Ok(FoundView::Missing) => (
                        report(s1, DiagnosticView::NameNotFound(id)),
                        Ok(TypeView::Keyword(Keyword::Any)),
                    ),
                    Ok(FoundView::Cyclic) => (
                        report(s1, DiagnosticView::IllegalCycle(id)),
                        Ok(TypeView::Keyword(Keyword::Any)),
                    ),
                    Ok(FoundView::Unresolved) => (s1, Err(EngineError::InvariantViolated)),
                    Ok(FoundView::Candidates(c)) => if args.len() == 0 {
                        (s1, Ok(collapse(c)))
                    } else {
                        match instance(collapse(c), args) {
                            Some(i) => resolve_type(o, s1, i, (budget - 1) as nat),
                            None => (s1, Ok(t)),
                        }
                    },
                }
            },
            TypeView::Union(ts) => {
                let (s1, r) = resolve_all(o, st, ts, 0, (budget - 1) as nat);
                match r {
                    Err(e) => (s1, Err(e)),
                    Ok(rs) => (s1, Ok(TypeView::Union(rs))),
                }
            },
            TypeView::Intersection(ts) => {
                let (s1, r) = resolve_all(o, st, ts, 0, (budget - 1) as nat);
                match r {
                    Err(e) => (s1, Err(e)),
                    Ok(rs) => (s1, Ok(TypeView::Intersection(rs))),
                }
            },
            _ => (st, Ok(t)),
        }
    }
}

/// Resolves the types `ts[i..]` from left to right and stops at the first
/// failure.
pub open spec fn resolve_all(o: Outer, st: State, ts: Seq<TypeView>, i: nat, budget: nat) -> (
    State,
    Result<Seq<TypeView>, EngineError>,
)
    decreases budget, ts.len() - i,
{
    if i >= ts.len() {
        (st, Ok(Seq::empty()))
    } else {
        let (s1, r1) = resolve_type(o, st, ts[i as int], budget);
        match r1 {
            Err(e) => (s1, Err(e)),
            Ok(t) => {
                let (s2, r2) = resolve_all(o, s1, ts, i + 1, budget);
                match r2 {
                    Err(e) => (s2, Err(e)),
                    Ok(rest) => (s2, Ok(seq![t] + rest)),
                }
            },
        }
    }
}

/// What resolution makes of a lookup beyond the local table. The scopes out
/// there are only read, so they have to be finished: a declaration that
/// still waits in one of them is a fault of the engine.
pub open spec fn from_outside(f: FoundView) -> Result<FoundView, EngineError> {
    match f {
        FoundView::Unresolved => Err(EngineError::InvariantViolated),
        _ => Ok(f),
    }
}

/// Resolves an identifier. Candidates that are already there are returned
/// as they are. Deferred declarations are resolved first, with the
/// identifier marked as in progress meanwhile, and their results are merged
/// into the candidates and kept. On a failure the entry is put back as it
/// was. An identifier that the local table lacks is looked up further out.
/// The answer is never `Unresolved`, and candidates are never none.
pub open spec fn resolve_id(o: Outer, st: State, id: IdView, budget: nat) -> (
    State,
    Result<FoundView, EngineError>,
)
    decreases budget, 0nat,
{
    if budget == 0 {
        (st, Err(EngineError::DepthExceeded))
    } else if !st.info.contains_key(id) {
        (st, from_outside(outer_lookup(o, id)))
    } else {
        let e = st.info[id];
        if e.in_progress || e.deferred.len() == 0 {
            (st, Ok(entry_found(e)))
        } else {
            let marked = with_entry(st, id, EntryView { in_progress: true, ..e });
            let (s1, r) = resolve_all(o, marked, e.deferred, 0, (budget - 1) as nat);
            match r {
                Err(err) => (with_entry(s1, id, e), Err(err)),
                Ok(ts) => {
                    let (candidates, diagnostics) = settle(e.resolved, s1.diagnostics, id, ts, 0);
                    (
                        State {
                            info: s1.info.insert(
                                id,
                                EntryView {
                                    resolved: candidates,
                                    deferred: Seq::empty(),
                                    in_progress: false,
                                },
                            ),
                            diagnostics,
                        },
                        Ok(FoundView::Candidates(candidates)),
                    )
                },
            }
        }
    }
}

proof fn lemma_lookup_candidates(s: StorageView, id: IdView)
    ensures
        match lookup_spec(s, id) {
            FoundView::Candidates(c) => c.len() > 0,
            _ => true,
        },
    decreases s,
{
    if !s.info.contains_key(id) {
        match s.parent {
            Some(p) => lemma_lookup_candidates(*p, id),
            None => {},
        }
    }
}

proof fn lemma_settle_keeps_some(
    candidates: Seq<TypeView>,
    diagnostics: Seq<DiagnosticView>,
    id: IdView,
    ts: Seq<TypeView>,
    i: nat,
)
    requires
        candidates.len() > 0 || i < ts.len(),
    ensures
        settle(candidates, diagnostics, id, ts, i).0.len() > 0,
    decreases ts.len() - i,
{
    if i < ts.len() {
        match merged_with(candidates, ts[i as int]) {
            Some(c) => lemma_settle_keeps_some(c, diagnostics, id, ts, i + 1),
            None => lemma_settle_keeps_some(
                candidates,
                diagnostics.push(DiagnosticView::Redeclared(id)),
                id,
                ts,
                i + 1,
            ),
        }
    }
}

proof fn lemma_resolve_all_length(o: Outer, st: State, ts: Seq<TypeView>, i: nat, budget: nat)
    requires
        i <= ts.len(),
    ensures
        match resolve_all(o, st, ts, i, budget).1 {
            Ok(rs) => rs.len() == ts.len() - i,
            Err(_) => true,
        },
    decreases ts.len() - i,
{
    if i < ts.len() {
        let (s1, r1) = resolve_type(o, st, ts[i as int], budget);
        if r1.is_ok() {
            lemma_resolve_all_length(o, s1, ts, i + 1, budget);
        }
    }
}

/// The resolution of an identifier never answers with no candidate at all,
/// and never with declarations that still wait.
pub proof fn lemma_candidates_are_some(o: Outer, st: State, id: IdView, budget: nat)
    ensures
        match resolve_id(o, st, id, budget).1 {
            Ok(FoundView::Candidates(c)) => c.len() > 0,
            Ok(FoundView::Unresolved) => false,
            _ => true,
        },
        match find_type_spec(o, st, id, budget).1 {
            Ok(Some(c)) => c.len() > 0,
            _ => true,
        },
{
    if budget > 0 {
        if !st.info.contains_key(id) {
            match o.parent {
                Some(p) => lemma_lookup_candidates(*p, id),
                None => {},
            }
        } else {
            let e = st.info[id];
            if !e.in_progress && e.deferred.len() > 0 {
                let marked = with_entry(st, id, EntryView { in_progress: true, ..e });
                let (s1, r) = resolve_all(o, marked, e.deferred, 0, (budget - 1) as nat);
                lemma_resolve_all_length(o, marked, e.deferred, 0, (budget - 1) as nat);
                match r {
                    Ok(ts) => lemma_settle_keeps_some(e.resolved, s1.diagnostics, id, ts, 0),
                    Err(_) => {},
                }
            }
        }
    }
}

/// What the query for the type of `id` comes to with `budget` levels of
/// nesting allowed: nothing for an undeclared name, else the candidates, of
/// which there is at least one. A name that is marked as being resolved when
/// the query starts is a fault of the engine, and so is a name of an outer
/// scope whose declarations still wait.
pub open spec fn find_type_spec(o: Outer, st: State, id: IdView, budget: nat) -> (
    State,
    Result<Option<Seq<TypeView>>, EngineError>,
) {
    let (s1, r) = resolve_id(o, st, id, budget);
    match r {
        Err(e) => (s1, Err(e)),
        Ok(FoundView::Missing) => (s1, Ok(None)),
        Ok(FoundView::Cyclic) => (s1, Err(EngineError::InvariantViolated)),
        Ok(FoundView::Unresolved) => (s1, Err(EngineError::InvariantViolated)),
        Ok(FoundView::Candidates(c)) => (s1, Ok(Some(c))),
    }
}

/// The state after a resolved declaration of `id` as `t`: merged into the
/// local table, or reported as a redeclaration.
pub open spec fn declare_in(st: State, id: IdView, t: TypeView) -> State {
    if declare_accepts(st.info, id, t) {
        State { info: declare_spec(st.info, id, t), ..st }
    } else {
        report(st, DiagnosticView::Redeclared(id))
    }
}

/// The state after `body` was registered as a declaration of `id`.
pub open spec fn register_in(st: State, id: IdView, body: TypeView) -> State {
    State { info: register_spec(st.info, id, body), ..st }
}

/// The state after an import. `target` holds the bindings of the imported
/// module, if the loader found it. Where that module has candidates for
/// `exported`, `local` gets them, unless `local` is bound already, which is
/// a redeclaration. Where the module is not found, or has no finished
/// candidate for the name, `local` stays undeclared.
pub open spec fn import_in(
    st: State,
    local: IdView,
    exported: IdView,
    target: Option<Map<IdView, EntryView>>,
) -> State {
    match target {
        None => st,
        Some(m) => if m.contains_key(exported) && entry_found(m[exported]) is Candidates {
            if st.info.contains_key(local) {
                report(st, DiagnosticView::Redeclared(local))
            } else {
                with_entry(
                    st,
                    local,
                    EntryView {
                        resolved: m[exported].resolved,
                        deferred: Seq::empty(),
                        in_progress: false,
                    },
                )
            }
        } else {
            st
        },
    }
}

/// What the loader answered for the import at position `k`: nothing where
/// no answer is recorded.
pub open spec fn answer_at(answers: Seq<Option<Map<IdView, EntryView>>>, k: int) -> Option<
    Map<IdView, EntryView>,
> {
    if 0 <= k < answers.len() {
        answers[k]
    } else {
        None
    }
}

/// The first pass over the first `n` declarations: every declared name is
/// entered into the table before anything is resolved, so that a
/// declaration may refer to one that follows it. `answers` holds, at the
/// position of each import, what the loader found for it.
pub open spec fn registered(
    answers: Seq<Option<Map<IdView, EntryView>>>,
    st: State,
    decls: Seq<DeclView>,
    n: nat,
) -> State
    decreases n,
{
    if n == 0 || n > decls.len() {
        st
    } else {
        let before = registered(answers, st, decls, (n - 1) as nat);
        match decls[n - 1] {
            DeclView::Type { id, body } => register_in(before, id, body),
            DeclView::Import { local, exported, specifier } => import_in(
                before,
                local,
                exported,
                answer_at(answers, n - 1),
            ),
        }
    }
}

/// The state after the query for `id` during a traversal: a failure of the
/// engine becomes a diagnostic, and the traversal goes on.
pub open spec fn checked(o: Outer, st: State, id: IdView, budget: nat) -> State {
    let (s1, r) = find_type_spec(o, st, id, budget);
    match r {
        Ok(_) => s1,
        Err(EngineError::DepthExceeded) => report(s1, DiagnosticView::ResourceExhausted(id)),
        Err(EngineError::InvariantViolated) => report(s1, DiagnosticView::Internal(id)),
    }
}

/// The second pass over the declarations `decls[i..]`: every declared type
/// is resolved in source order.
pub open spec fn resolved_each(o: Outer, st: State, decls: Seq<DeclView>, i: nat, budget: nat) -> State
    decreases decls.len() - i,
{
    if i >= decls.len() {
        st
    } else {
        let next = match decls[i as int] {
            DeclView::Type { id, body } => checked(o, st, id, budget),
            DeclView::Import { .. } => st,
        };
        resolved_each(o, next, decls, i + 1, budget)
    }
}

/// The state after the traversal of a module, given what the loader
/// answered for each of its imports.
pub open spec fn visited(
    answers: Seq<Option<Map<IdView, EntryView>>>,
    o: Outer,
    st: State,
    decls: Seq<DeclView>,
    budget: nat,
) -> State {
    resolved_each(o, registered(answers, st, decls, decls.len()), decls, 0, budget)
}

/// The first pass reads the answers only at the positions it has come to.
pub proof fn lemma_registered_reads_prefix(
    a1: Seq<Option<Map<IdView, EntryView>>>,
    a2: Seq<Option<Map<IdView, EntryView>>>,
    st: State,
    decls: Seq<DeclView>,
    n: nat,
)
    requires
        forall|k: int| 0 <= k < n ==> answer_at(a1, k) == answer_at(a2, k),
    ensures
        registered(a1, st, decls, n) == registered(a2, st, decls, n),
    decreases n,
{
    if n > 0 && n <= decls.len() {
        lemma_registered_reads_prefix(a1, a2, st, decls, (n - 1) as nat);
    }
}

} // verus!
