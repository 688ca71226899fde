//! Laws of resolution: what holds of every table, every identifier and
//! every declaration.
use vstd::prelude::*;
use crate::bindings::EntryView;
use crate::id::IdView;
use crate::module::DeclView;
use crate::resolve::{
    collapse, instance, lemma_candidates_are_some, checked, declare_in, find_type_spec, outer_lookup, register_in, registered, resolve_all,
    resolve_id, resolve_type, resolved_each, settle, visited, with_entry, DiagnosticView,
    EngineError, Outer, State,
};
use crate::storage::{
    declare_spec, entry_found, lookup_spec, register_spec, FoundView,
    StorageView,
};
use crate::ty::{Keyword, MemberView, TypeView};

verus! {

/// Whether resolution leaves `t` as it is: `t` is neither a reference nor
/// a union nor an intersection.
pub open spec fn is_boundary(t: TypeView) -> bool {
    match t {
        TypeView::Ref { .. } => false,
        TypeView::Union(_) => false,
        TypeView::Intersection(_) => false,
        _ => true,
    }
}

/// The entry of a name that has one declaration waiting to be resolved and
/// nothing else.
pub open spec fn waiting(body: TypeView) -> EntryView {
    EntryView { resolved: Seq::empty(), deferred: seq![body], in_progress: false }
}

/// The entry of a name whose one declaration was resolved to `t`.
pub open spec fn settled(t: TypeView) -> EntryView {
    EntryView { resolved: seq![t], deferred: Seq::empty(), in_progress: false }
}

/// A reference to `id` without type arguments.
pub open spec fn reference(id: IdView) -> TypeView {
    TypeView::Ref { id, args: Seq::empty() }
}

/// Two identifiers with different markers never collide in a table, even
/// where their text is the same: a declaration of one leaves every lookup of
/// the other as it was, in the scope itself and along the chain.
pub proof fn law_markers_keep_lookups_apart(s: StorageView, a: IdView, b: IdView, t: TypeView)
    requires
        a.mark != b.mark,
    ensures
        lookup_spec(StorageView { info: declare_spec(s.info, a, t), ..s }, b) == lookup_spec(s, b),
        lookup_spec(StorageView { info: register_spec(s.info, a, t), ..s }, b) == lookup_spec(
            s,
            b,
        ),
{
}

/// Whether the resolution of the type `t` ever asks for the identifier `a`.
pub open spec fn type_asks(o: Outer, st: State, t: TypeView, budget: nat, a: IdView) -> bool
    decreases budget, 0nat,
{
    if budget == 0 {
        false
    } else {
        match t {
            TypeView::Ref { id, args } => {
                let (s1, r) = resolve_id(o, st, id, (budget - 1) as nat);
                id_asks(o, st, id, (budget - 1) as nat, a) || match r {
                    Ok(FoundView::Candidates(c)) => args.len() > 0 && match instance(
                        collapse(c),
                        args,
                    ) {
                        Some(i) => type_asks(o, s1, i, (budget - 1) as nat, a),
                        None => false,
                    },
                    _ => false,
                }
            },
            TypeView::Union(ts) => all_ask(o, st, ts, 0, (budget - 1) as nat, a),
            TypeView::Intersection(ts) => all_ask(o, st, ts, 0, (budget - 1) as nat, a),
            _ => false,
        }
    }
}

/// Whether the resolution of the types `ts[i..]` ever asks for `a`.
pub open spec fn all_ask(
    o: Outer,
    st: State,
    ts: Seq<TypeView>,
    i: nat,
    budget: nat,
    a: IdView,
) -> bool
    decreases budget, ts.len() - i,
{
    if i >= ts.len() {
        false
    } else {
        let (s1, r1) = resolve_type(o, st, ts[i as int], budget);
        type_asks(o, st, ts[i as int], budget, a) || (r1.is_ok() && all_ask(
            o,
            s1,
            ts,
            i + 1,
            budget,
            a,
        ))
    }
}

/// Whether the resolution of the identifier `id` ever asks for `a`: `id`
/// is `a` itself, or a declaration of `id` that waits to be resolved leads
/// to `a`.
pub open spec fn id_asks(o: Outer, st: State, id: IdView, budget: nat, a: IdView) -> bool
    decreases budget, 0nat,
{
    if budget == 0 {
        false
    } else if id == a {
        true
    } else if !st.info.contains_key(id) {
        false
    } else {
        let e = st.info[id];
        !e.in_progress && e.deferred.len() > 0 && all_ask(
            o,
            with_entry(st, id, EntryView { in_progress: true, ..e }),
            e.deferred,
            0,
            (budget - 1) as nat,
            a,
        )
    }
}

/// Whether two states hold the same entries for every identifier but `a`.
pub open spec fn agree_except(s1: State, s2: State, a: IdView) -> bool {
    forall|x: IdView|
        #![trigger s1.info.contains_key(x)]
        #![trigger s2.info.contains_key(x)]
        x != a ==> s1.info.contains_key(x) == s2.info.contains_key(x) && (s1.info.contains_key(x)
            ==> s1.info[x] == s2.info[x])
}

proof fn lemma_settle_candidates(
    c: Seq<TypeView>,
    d1: Seq<DiagnosticView>,
    d2: Seq<DiagnosticView>,
    id: IdView,
    ts: Seq<TypeView>,
    i: nat,
)
    ensures
        settle(c, d1, id, ts, i).0 == settle(c, d2, id, ts, i).0,
    decreases ts.len() - i,
{
    if i < ts.len() {
        match crate::merge::merged_with(c, ts[i as int]) {
            Some(n) => lemma_settle_candidates(n, d1, d2, id, ts, i + 1),
            None => lemma_settle_candidates(
                c,
                d1.push(DiagnosticView::Redeclared(id)),
                d2.push(DiagnosticView::Redeclared(id)),
                id,
                ts,
                i + 1,
            ),
        }
    }
}

proof fn lemma_type_apart(o: Outer, s1: State, s2: State, t: TypeView, budget: nat, a: IdView)
    requires
        agree_except(s1, s2, a),
        !type_asks(o, s1, t, budget, a),
    ensures
        resolve_type(o, s1, t, budget).1 == resolve_type(o, s2, t, budget).1,
        agree_except(resolve_type(o, s1, t, budget).0, resolve_type(o, s2, t, budget).0, a),
    decreases budget, 0nat,
{
    if budget > 0 {
        match t {
            TypeView::Ref { id, args } => {
                lemma_id_apart(o, s1, s2, id, (budget - 1) as nat, a);
                let (n1, r1) = resolve_id(o, s1, id, (budget - 1) as nat);
                let (n2, r2) = resolve_id(o, s2, id, (budget - 1) as nat);
                match r1 {
                    Ok(FoundView::Candidates(c)) => {
                        if args.len() > 0 {
                            match instance(collapse(c), args) {
                                Some(i) => {
                                    lemma_type_apart(o, n1, n2, i, (budget - 1) as nat, a);
                                },
                                None => {},
                            }
                        }
                    },
                    _ => {},
                }
            },
            TypeView::Union(ts) => {
                lemma_all_apart(o, s1, s2, ts, 0, (budget - 1) as nat, a);
            },
            TypeView::Intersection(ts) => {
                lemma_all_apart(o, s1, s2, ts, 0, (budget - 1) as nat, a);
            },
            _ => {},
        }
    }
}

proof fn lemma_all_apart(
    o: Outer,
    s1: State,
    s2: State,
    ts: Seq<TypeView>,
    i: nat,
    budget: nat,
    a: IdView,
)
    requires
        agree_except(s1, s2, a),
        !all_ask(o, s1, ts, i, budget, a),
    ensures
        resolve_all(o, s1, ts, i, budget).1 == resolve_all(o, s2, ts, i, budget).1,
        agree_except(resolve_all(o, s1, ts, i, budget).0, resolve_all(o, s2, ts, i, budget).0, a),
    decreases budget, ts.len() - i,
{
    if i < ts.len() {
        lemma_type_apart(o, s1, s2, ts[i as int], budget, a);
        let (n1, r1) = resolve_type(o, s1, ts[i as int], budget);
        let (n2, r2) = resolve_type(o, s2, ts[i as int], budget);
        if r1.is_ok() {
            lemma_all_apart(o, n1, n2, ts, i + 1, budget, a);
        }
    }
}

proof fn lemma_id_apart(o: Outer, s1: State, s2: State, id: IdView, budget: nat, a: IdView)
    requires
        agree_except(s1, s2, a),
        !id_asks(o, s1, id, budget, a),
    ensures
        resolve_id(o, s1, id, budget).1 == resolve_id(o, s2, id, budget).1,
        agree_except(resolve_id(o, s1, id, budget).0, resolve_id(o, s2, id, budget).0, a),
    decreases budget, 0nat,
{
    if budget > 0 && s1.info.contains_key(id) {
        let e = s1.info[id];
        assert(s2.info.contains_key(id) && s2.info[id] == e);
        if !e.in_progress && e.deferred.len() > 0 {
            let busy = EntryView { in_progress: true, ..e };
            let m1 = with_entry(s1, id, busy);
            let m2 = with_entry(s2, id, busy);
            assert(agree_except(m1, m2, a));
            lemma_all_apart(o, m1, m2, e.deferred, 0, (budget - 1) as nat, a);
            let (n1, r1) = resolve_all(o, m1, e.deferred, 0, (budget - 1) as nat);
            let (n2, r2) = resolve_all(o, m2, e.deferred, 0, (budget - 1) as nat);
            match r1 {
                Err(_) => {
                    assert(agree_except(with_entry(n1, id, e), with_entry(n2, id, e), a));
                },
                Ok(ts) => {
                    lemma_settle_candidates(e.resolved, n1.diagnostics, n2.diagnostics, id, ts, 0);
                    let c = settle(e.resolved, n1.diagnostics, id, ts, 0).0;
                    let done = EntryView {
                        resolved: c,
                        deferred: Seq::empty(),
                        in_progress: false,
                    };
                    assert(agree_except(
                        State {
                            info: n1.info.insert(id, done),
                            diagnostics: settle(e.resolved, n1.diagnostics, id, ts, 0).1,
                        },
                        State {
                            info: n2.info.insert(id, done),
                            diagnostics: settle(e.resolved, n2.diagnostics, id, ts, 0).1,
                        },
                        a,
                    ));
                },
            }
        }
    }
}

/// Identifiers never collide in queries either: a declaration for `a`
/// leaves the answer to a query for `b` as it was, whenever the resolution
/// of `b` does not ask for `a`. This holds in particular of two identifiers
/// with the same text and different markers, as long as no waiting
/// declaration of the one leads to the other.
pub proof fn law_declaration_leaves_other_queries(
    o: Outer,
    st: State,
    a: IdView,
    b: IdView,
    t: TypeView,
    budget: nat,
)
    requires
        !id_asks(o, st, b, budget, a),
    ensures
        find_type_spec(o, declare_in(st, a, t), b, budget).1 == find_type_spec(o, st, b, budget).1,
        find_type_spec(o, register_in(st, a, t), b, budget).1 == find_type_spec(
            o,
            st,
            b,
            budget,
        ).1,
{
    assert(agree_except(st, declare_in(st, a, t), a));
    assert(agree_except(st, register_in(st, a, t), a));
    lemma_id_apart(o, st, declare_in(st, a, t), b, budget, a);
    lemma_id_apart(o, st, register_in(st, a, t), b, budget, a);
}

/// In particular, a declaration for one identifier does not change what a
/// query for an identifier with another marker answers when that other one
/// has no declaration that still waits to be resolved: such a query asks for
/// no identifier but its own.
pub proof fn law_markers_keep_queries_apart(
    o: Outer,
    st: State,
    a: IdView,
    b: IdView,
    t: TypeView,
    budget: nat,
)
    requires
        a.mark != b.mark,
        st.info.contains_key(b) ==> st.info[b].deferred.len() == 0,
    ensures
        find_type_spec(o, declare_in(st, a, t), b, budget).1 == find_type_spec(o, st, b, budget).1,
        find_type_spec(o, register_in(st, a, t), b, budget).1 == find_type_spec(
            o,
            st,
            b,
            budget,
        ).1,
{
    law_declaration_leaves_other_queries(o, st, a, b, t, budget);
}

/// Two object shapes that are declared for one identifier are both kept,
/// or else reported: neither is dropped in silence, whatever the identifier
/// held before. Where it held nothing, the identifier gets a single
/// candidate, the shape with the members of the first declaration followed
/// by those of the second. Where it held an object shape as its last
/// candidate, the two new shapes are merged into that candidate. Where its
/// last candidate is of another kind, the earlier candidates stay and each
/// of the two declarations is reported as a redeclaration.
pub proof fn law_objects_merge_or_are_reported(
    o: Outer,
    st: State,
    id: IdView,
    m1: Seq<MemberView>,
    m2: Seq<MemberView>,
    budget: nat,
)
    requires
        st.info.contains_key(id) ==> !st.info[id].in_progress && st.info[id].deferred.len() == 0,
        budget > 0,
    ensures
        ({
            let first = TypeView::Object { members: m1 };
            let second = TypeView::Object { members: m2 };
            let after = declare_in(declare_in(st, id, first), id, second);
            let answer = find_type_spec(o, after, id, budget).1;
            if !st.info.contains_key(id) || st.info[id].resolved.len() == 0 {
                &&& after.diagnostics == st.diagnostics
                &&& answer == Ok::<Option<Seq<TypeView>>, EngineError>(
                    Some(seq![TypeView::Object { members: m1 + m2 }]),
                )
            } else {
                let held = st.info[id].resolved;
                match held.last() {
                    TypeView::Object { members: m0 } => {
                        &&& after.diagnostics == st.diagnostics
                        &&& answer == Ok::<Option<Seq<TypeView>>, EngineError>(
                            Some(
                                held.drop_last().push(
                                    TypeView::Object { members: m0 + m1 + m2 },
                                ),
                            ),
                        )
                    },
                    _ => {
                        &&& after.diagnostics == st.diagnostics.push(
                            DiagnosticView::Redeclared(id),
                        ).push(DiagnosticView::Redeclared(id))
                        &&& answer == Ok::<Option<Seq<TypeView>>, EngineError>(Some(held))
                    },
                }
            }
        }),
{
    let first = TypeView::Object { members: m1 };
    let second = TypeView::Object { members: m2 };
    let one = declare_in(st, id, first);
    let after = declare_in(one, id, second);
    if !st.info.contains_key(id) {
        assert(seq![first].drop_last().push(TypeView::Object { members: m1 + m2 }) =~= seq![
            TypeView::Object { members: m1 + m2 },
        ]);
    } else if st.info[id].resolved.len() == 0 {
        assert(one.info[id].resolved == seq![first]);
        assert(seq![first].drop_last().push(TypeView::Object { members: m1 + m2 }) =~= seq![
            TypeView::Object { members: m1 + m2 },
        ]);
    } else {
        let held = st.info[id].resolved;
        match held.last() {
            TypeView::Object { members: m0 } => {
                let step = held.drop_last().push(TypeView::Object { members: m0 + m1 });
                assert(one.info[id].resolved == step);
                assert(step.drop_last() =~= held.drop_last());
                assert((m0 + m1) + m2 =~= m0 + m1 + m2);
            },
            _ => {},
        }
    }
}

/// The same holds of two object shapes that are registered and resolved
/// later: the query answers with the one merged shape and reports nothing.
pub proof fn law_registered_objects_merge(
    o: Outer,
    st: State,
    id: IdView,
    m1: Seq<MemberView>,
    m2: Seq<MemberView>,
    budget: nat,
)
    requires
        !st.info.contains_key(id),
        budget >= 2,
    ensures
        ({
            let first = TypeView::Object { members: m1 };
            let second = TypeView::Object { members: m2 };
            let before = register_in(register_in(st, id, first), id, second);
            let (after, r) = find_type_spec(o, before, id, budget);
            &&& r == Ok::<Option<Seq<TypeView>>, EngineError>(
                Some(seq![TypeView::Object { members: m1 + m2 }]),
            )
            &&& after.diagnostics == st.diagnostics
        }),
{
    let first = TypeView::Object { members: m1 };
    let second = TypeView::Object { members: m2 };
    let merged = TypeView::Object { members: m1 + m2 };
    let before = register_in(register_in(st, id, first), id, second);
    let e = before.info[id];
    assert(e.deferred =~= seq![first, second]);
    assert(e.resolved =~= Seq::<TypeView>::empty());
    let marked = with_entry(before, id, EntryView { in_progress: true, ..e });
    let b = (budget - 1) as nat;
    reveal_with_fuel(resolve_all, 3);
    assert(resolve_all(o, marked, e.deferred, 2, b) == (
        marked,
        Ok::<Seq<TypeView>, EngineError>(Seq::empty()),
    ));
    assert(resolve_type(o, marked, second, b) == (marked, Ok::<TypeView, EngineError>(second)));
    assert(resolve_type(o, marked, first, b) == (marked, Ok::<TypeView, EngineError>(first)));
    assert(seq![second] + Seq::<TypeView>::empty() =~= seq![second]);
    assert(resolve_all(o, marked, e.deferred, 1, b) == (
        marked,
        Ok::<Seq<TypeView>, EngineError>(seq![second]),
    ));
    assert(seq![first] + seq![second] =~= seq![first, second]);
    assert(resolve_all(o, marked, e.deferred, 0, b) == (
        marked,
        Ok::<Seq<TypeView>, EngineError>(seq![first, second]),
    ));
    let ts = seq![first, second];
    reveal_with_fuel(settle, 3);
    assert(seq![first].drop_last().push(merged) =~= seq![merged]);
    assert(settle(e.resolved, marked.diagnostics, id, ts, 2) == (
        e.resolved,
        marked.diagnostics,
    ));
    assert(settle(seq![merged], marked.diagnostics, id, ts, 2) == (
        seq![merged],
        marked.diagnostics,
    ));
    assert(settle(seq![first], marked.diagnostics, id, ts, 1) == (
        seq![merged],
        marked.diagnostics,
    ));
    assert(settle(e.resolved, marked.diagnostics, id, ts, 0) == (
        seq![merged],
        marked.diagnostics,
    ));
}

/// A declaration in the local scope wins over every declaration of the same
/// identifier further out: with an entry in the local table, the lookup
/// never reads the chain of parents.
pub proof fn law_local_declaration_shadows(
    s: StorageView,
    other: Option<Box<StorageView>>,
    id: IdView,
)
    requires
        s.info.contains_key(id),
    ensures
        lookup_spec(s, id) == entry_found(s.info[id]),
        lookup_spec(StorageView { parent: other, ..s }, id) == lookup_spec(s, id),
{
}

/// Whether two outer chains answer alike for every identifier that the
/// table `info` does not hold.
pub open spec fn agree_beyond(o1: Outer, o2: Outer, info: Map<IdView, EntryView>) -> bool {
    forall|x: IdView| !info.contains_key(x) ==> outer_lookup(o1, x) == outer_lookup(o2, x)
}

proof fn lemma_type_ignores_shadowed(o1: Outer, o2: Outer, st: State, t: TypeView, budget: nat)
    requires
        agree_beyond(o1, o2, st.info),
    ensures
        resolve_type(o1, st, t, budget) == resolve_type(o2, st, t, budget),
        resolve_type(o1, st, t, budget).0.info.dom() == st.info.dom(),
    decreases budget, 0nat,
{
    if budget > 0 {
        match t {
            TypeView::Ref { id, args } => {
                lemma_id_ignores_shadowed(o1, o2, st, id, (budget - 1) as nat);
                let (s1, r) = resolve_id(o1, st, id, (budget - 1) as nat);
                match r {
                    Ok(FoundView::Candidates(c)) => {
                        if args.len() > 0 {
                            match instance(collapse(c), args) {
                                Some(i) => {
                                    assert(agree_beyond(o1, o2, s1.info)) by {
                                        assert forall|x: IdView|
                                            !s1.info.contains_key(x) implies outer_lookup(o1, x)
                                            == outer_lookup(o2, x) by {
                                            assert(s1.info.dom().contains(x)
                                                == st.info.dom().contains(x));
                                        }
                                    }
                                    lemma_type_ignores_shadowed(
                                        o1,
                                        o2,
                                        s1,
                                        i,
                                        (budget - 1) as nat,
                                    );
                                },
                                None => {},
                            }
                        }
                    },
                    _ => {},
                }
            },
            TypeView::Union(ts) => {
                lemma_all_ignore_shadowed(o1, o2, st, ts, 0, (budget - 1) as nat);
            },
            TypeView::Intersection(ts) => {
                lemma_all_ignore_shadowed(o1, o2, st, ts, 0, (budget - 1) as nat);
            },
            _ => {},
        }
    }
}

proof fn lemma_all_ignore_shadowed(
    o1: Outer,
    o2: Outer,
    st: State,
    ts: Seq<TypeView>,
    i: nat,
    budget: nat,
)
    requires
        agree_beyond(o1, o2, st.info),
    ensures
        resolve_all(o1, st, ts, i, budget) == resolve_all(o2, st, ts, i, budget),
        resolve_all(o1, st, ts, i, budget).0.info.dom() == st.info.dom(),
    decreases budget, ts.len() - i,
{
    if i < ts.len() {
        lemma_type_ignores_shadowed(o1, o2, st, ts[i as int], budget);
        let (s1, r1) = resolve_type(o1, st, ts[i as int], budget);
        if r1.is_ok() {
            assert(agree_beyond(o1, o2, s1.info)) by {
                assert forall|x: IdView| !s1.info.contains_key(x) implies outer_lookup(o1, x)
                    == outer_lookup(o2, x) by {
                    assert(s1.info.dom().contains(x) == st.info.dom().contains(x));
                }
            }
            lemma_all_ignore_shadowed(o1, o2, s1, ts, i + 1, budget);
        }
    }
}

proof fn lemma_id_ignores_shadowed(o1: Outer, o2: Outer, st: State, id: IdView, budget: nat)
    requires
        agree_beyond(o1, o2, st.info),
    ensures
        resolve_id(o1, st, id, budget) == resolve_id(o2, st, id, budget),
        resolve_id(o1, st, id, budget).0.info.dom() == st.info.dom(),
    decreases budget, 0nat,
{
    if budget > 0 && st.info.contains_key(id) {
        let e = st.info[id];
        if !e.in_progress && e.deferred.len() > 0 {
            let marked = with_entry(st, id, EntryView { in_progress: true, ..e });
            assert(marked.info.dom() =~= st.info.dom());
            assert(agree_beyond(o1, o2, marked.info)) by {
                assert forall|x: IdView| !marked.info.contains_key(x) implies outer_lookup(o1, x)
                    == outer_lookup(o2, x) by {
                    assert(marked.info.dom().contains(x) == st.info.dom().contains(x));
                }
            }
            lemma_all_ignore_shadowed(o1, o2, marked, e.deferred, 0, (budget - 1) as nat);
            let (s1, r) = resolve_all(o1, marked, e.deferred, 0, (budget - 1) as nat);
            assert(s1.info.insert(id, e).dom() =~= st.info.dom());
            match r {
                Ok(ts) => {
                    let done = settle(e.resolved, s1.diagnostics, id, ts, 0).0;
                    assert(s1.info.insert(
                        id,
                        EntryView { resolved: done, deferred: Seq::empty(), in_progress: false },
                    ).dom() =~= st.info.dom());
                },
                Err(_) => {},
            }
        }
    }
}

/// Shadowing holds of queries too: what lies beyond the local table matters
/// only for the identifiers that the local table does not hold. Two chains
/// of outer scopes that answer alike for those give the same answer to every
/// query, the same table and the same diagnostics, however they differ on
/// the identifiers that are declared locally.
pub proof fn law_local_declarations_shadow_queries(
    o1: Outer,
    o2: Outer,
    st: State,
    id: IdView,
    budget: nat,
)
    requires
        agree_beyond(o1, o2, st.info),
    ensures
        find_type_spec(o1, st, id, budget) == find_type_spec(o2, st, id, budget),
{
    lemma_id_ignores_shadowed(o1, o2, st, id, budget);
}

/// Shadowing in an inner scope does not depend on the order of the text. A
/// scope declares `n` and uses it in the declaration of `u`. Whether the use
/// or the declaration comes first, the first pass leaves the same table, and
/// the query for `u` gives the same answer, the same table and the same
/// diagnostics. That outcome is decided inside the scope: it is the same for
/// any two chains of enclosing scopes, whatever they hold for `n` and for
/// `u`, as long as they answer alike for the names that the scope does not
/// declare itself. This holds of every body of `n`.
pub proof fn law_inner_declaration_wins_in_either_order(
    answers: Seq<Option<Map<IdView, EntryView>>>,
    o1: Outer,
    o2: Outer,
    st: State,
    n: IdView,
    u: IdView,
    body: TypeView,
    budget: nat,
)
    requires
        n != u,
        forall|x: IdView|
            x != n && x != u && !st.info.contains_key(x) ==> outer_lookup(o1, x) == outer_lookup(
                o2,
                x,
            ),
    ensures
        ({
            let use_first = seq![
                DeclView::Type { id: u, body: reference(n) },
                DeclView::Type { id: n, body },
            ];
            let declaration_first = seq![
                DeclView::Type { id: n, body },
                DeclView::Type { id: u, body: reference(n) },
            ];
            let a = registered(answers, st, use_first, 2);
            let b = registered(answers, st, declaration_first, 2);
            &&& a == b
            &&& a.info.contains_key(n) && a.info.contains_key(u)
            &&& find_type_spec(o1, a, u, budget) == find_type_spec(o2, b, u, budget)
        }),
{
    let use_first = seq![
        DeclView::Type { id: u, body: reference(n) },
        DeclView::Type { id: n, body },
    ];
    let declaration_first = seq![
        DeclView::Type { id: n, body },
        DeclView::Type { id: u, body: reference(n) },
    ];
    reveal_with_fuel(registered, 3);
    let a = registered(answers, st, use_first, 2);
    let b = registered(answers, st, declaration_first, 2);
    assert(a == register_in(register_in(st, u, reference(n)), n, body));
    assert(b == register_in(register_in(st, n, body), u, reference(n)));
    law_registration_order(st, u, reference(n), n, body);
    assert(agree_beyond(o1, o2, a.info)) by {
        assert forall|x: IdView| !a.info.contains_key(x) implies outer_lookup(o1, x)
            == outer_lookup(o2, x) by {
            assert(x != n && x != u);
            assert(!st.info.contains_key(x));
        }
    }
    law_local_declarations_shadow_queries(o1, o2, a, u, budget);
}

/// Registration is indifferent to the order of the declarations of
/// different identifiers.
pub proof fn law_registration_order(st: State, a: IdView, x: TypeView, b: IdView, y: TypeView)
    requires
        a != b,
    ensures
        register_in(register_in(st, a, x), b, y) == register_in(register_in(st, b, y), a, x),
{
    let left = register_in(register_in(st, a, x), b, y);
    let right = register_in(register_in(st, b, y), a, x);
    assert(left.info =~= right.info);
}

/// A declaration may refer to an identifier that is declared after it: with
/// `b` registered as a reference to `a`, and `a` registered afterwards as a
/// type `k` that resolution leaves as it is, the query for `b` answers `k`
/// and reports nothing.
pub proof fn law_forward_reference(
    o: Outer,
    st: State,
    a: IdView,
    b: IdView,
    k: TypeView,
    budget: nat,
)
    requires
        a != b,
        !st.info.contains_key(a),
        !st.info.contains_key(b),
        is_boundary(k),
        budget >= 4,
    ensures
        ({
            let before = register_in(register_in(st, b, reference(a)), a, k);
            let (after, r) = find_type_spec(o, before, b, budget);
            &&& r == Ok::<Option<Seq<TypeView>>, EngineError>(Some(seq![k]))
            &&& after.diagnostics == st.diagnostics
            &&& after.info == st.info.insert(a, settled(k)).insert(b, settled(k))
        }),
{
    let before = register_in(register_in(st, b, reference(a)), a, k);
    let eb = before.info[b];
    let ea = before.info[a];
    assert(eb == waiting(reference(a)));
    assert(ea == waiting(k));
    let marked_b = with_entry(before, b, EntryView { in_progress: true, ..eb });
    lemma_resolves_single_boundary(o, marked_b, a, k, (budget - 2) as nat);
    let (s1, r1) = resolve_id(o, marked_b, a, (budget - 2) as nat);
    assert(r1 == Ok::<FoundView, EngineError>(FoundView::Candidates(seq![k])));
    let b1 = (budget - 1) as nat;
    assert(reference(a)->args.len() == 0);
    assert(resolve_type(o, marked_b, reference(a), b1) == (s1, Ok::<TypeView, EngineError>(k)));
    reveal_with_fuel(resolve_all, 2);
    assert(seq![k] + Seq::<TypeView>::empty() =~= seq![k]);
    assert(resolve_all(o, marked_b, eb.deferred, 0, b1) == (
        s1,
        Ok::<Seq<TypeView>, EngineError>(seq![k]),
    ));
    reveal_with_fuel(settle, 2);
    assert(settle(eb.resolved, s1.diagnostics, b, seq![k], 0) == (seq![k], s1.diagnostics));
    assert(s1.info.insert(b, settled(k)) =~= st.info.insert(a, settled(k)).insert(b, settled(k)));
}

/// The same in a traversal: a module that declares `b` as a reference to
/// `a` and only then `a` itself is resolved in full, and nothing is
/// reported.
pub proof fn law_forward_reference_in_module(
    answers: Seq<Option<Map<IdView, EntryView>>>,
    o: Outer,
    st: State,
    a: IdView,
    b: IdView,
    k: TypeView,
    budget: nat,
)
    requires
        a != b,
        !st.info.contains_key(a),
        !st.info.contains_key(b),
        is_boundary(k),
        budget >= 4,
    ensures
        ({
            let module = seq![
                DeclView::Type { id: b, body: reference(a) },
                DeclView::Type { id: a, body: k },
            ];
            let after = visited(answers, o, st, module, budget);
            &&& after.diagnostics == st.diagnostics
            &&& after.info == st.info.insert(a, settled(k)).insert(b, settled(k))
        }),
{
    let module = seq![
        DeclView::Type { id: b, body: reference(a) },
        DeclView::Type { id: a, body: k },
    ];
    let before = register_in(register_in(st, b, reference(a)), a, k);
    reveal_with_fuel(registered, 3);
    assert(registered(answers, st, module, 2) == before);
    law_forward_reference(o, st, a, b, k, budget);
    let s1 = checked(o, before, b, budget);
    assert(s1.info == st.info.insert(a, settled(k)).insert(b, settled(k)));
    assert(s1.diagnostics == st.diagnostics);
    assert(checked(o, s1, a, budget) == s1);
    reveal_with_fuel(resolved_each, 3);
    assert(resolved_each(o, before, module, 0, budget) == s1);
}

/// A name with one waiting declaration `k` that resolution leaves as it is
/// resolves to `k`, and nothing is reported.
proof fn lemma_resolves_single_boundary(
    o: Outer,
    st: State,
    id: IdView,
    k: TypeView,
    budget: nat,
)
    requires
        st.info.contains_key(id),
        st.info[id] == waiting(k),
        is_boundary(k),
        budget >= 2,
    ensures
        resolve_id(o, st, id, budget).1 == Ok::<FoundView, EngineError>(
            FoundView::Candidates(seq![k]),
        ),
        resolve_id(o, st, id, budget).0.diagnostics == st.diagnostics,
        resolve_id(o, st, id, budget).0.info == st.info.insert(
            id,
            EntryView { resolved: seq![k], deferred: Seq::empty(), in_progress: false },
        ),
{
    let e = st.info[id];
    let marked = with_entry(st, id, EntryView { in_progress: true, ..e });
    let b = (budget - 1) as nat;
    reveal_with_fuel(resolve_all, 2);
    assert(resolve_type(o, marked, k, b) == (marked, Ok::<TypeView, EngineError>(k)));
    assert(seq![k] + Seq::<TypeView>::empty() =~= seq![k]);
    assert(resolve_all(o, marked, e.deferred, 0, b) == (
        marked,
        Ok::<Seq<TypeView>, EngineError>(seq![k]),
    ));
    reveal_with_fuel(settle, 2);
    assert(settle(e.resolved, marked.diagnostics, id, seq![k], 0) == (
        seq![k],
        marked.diagnostics,
    ));
    assert(marked.info.insert(
        id,
        EntryView { resolved: seq![k], deferred: Seq::empty(), in_progress: false },
    ) =~= st.info.insert(
        id,
        EntryView { resolved: seq![k], deferred: Seq::empty(), in_progress: false },
    ));
}

/// A name that is declared as itself, with nothing in between, resolves to
/// the placeholder `any`, and exactly one illegal cycle is reported.
pub proof fn law_direct_self_reference(o: Outer, st: State, id: IdView, budget: nat)
    requires
        !st.info.contains_key(id),
        budget >= 3,
    ensures
        ({
            let before = register_in(st, id, reference(id));
            let (after, r) = find_type_spec(o, before, id, budget);
            &&& r == Ok::<Option<Seq<TypeView>>, EngineError>(
                Some(seq![TypeView::Keyword(Keyword::Any)]),
            )
            &&& after.diagnostics == st.diagnostics.push(DiagnosticView::IllegalCycle(id))
        }),
{
    let before = register_in(st, id, reference(id));
    let e = before.info[id];
    let any = TypeView::Keyword(Keyword::Any);
    let marked = with_entry(before, id, EntryView { in_progress: true, ..e });
    let b1 = (budget - 1) as nat;
    let b2 = (budget - 2) as nat;
    assert(resolve_id(o, marked, id, b2) == (
        marked,
        Ok::<FoundView, EngineError>(FoundView::Cyclic),
    ));
    let reported = State {
        diagnostics: marked.diagnostics.push(DiagnosticView::IllegalCycle(id)),
        ..marked
    };
    assert(reference(id)->args.len() == 0);
    assert(resolve_type(o, marked, reference(id), b1) == (
        reported,
        Ok::<TypeView, EngineError>(any),
    ));
    reveal_with_fuel(resolve_all, 2);
    assert(seq![any] + Seq::<TypeView>::empty() =~= seq![any]);
    assert(resolve_all(o, marked, e.deferred, 0, b1) == (
        reported,
        Ok::<Seq<TypeView>, EngineError>(seq![any]),
    ));
    reveal_with_fuel(settle, 2);
    assert(settle(e.resolved, reported.diagnostics, id, seq![any], 0) == (
        seq![any],
        reported.diagnostics,
    ));
}

/// A shape that mentions its own name behind a boundary (a member of an
/// object shape, a parameter or the result of a function) is legal: the
/// name resolves to the shape as it was declared, and nothing is reported.
pub proof fn law_recursive_shape(o: Outer, st: State, id: IdView, shape: TypeView, budget: nat)
    requires
        !st.info.contains_key(id),
        is_boundary(shape),
        budget >= 2,
    ensures
        ({
            let before = register_in(st, id, shape);
            let (after, r) = find_type_spec(o, before, id, budget);
            &&& r == Ok::<Option<Seq<TypeView>>, EngineError>(Some(seq![shape]))
            &&& after.diagnostics == st.diagnostics
        }),
{
    let before = register_in(st, id, shape);
    lemma_resolves_single_boundary(o, before, id, shape, budget);
}

/// Whether `ids` is a chain of aliases in `st`: every name but the last has
/// one waiting declaration, which is a reference to the next name.
pub open spec fn alias_chain(st: State, ids: Seq<IdView>) -> bool {
    &&& ids.len() >= 1
    &&& forall|i: int, j: int| 0 <= i < j < ids.len() ==> ids[i] != ids[j]
    &&& forall|i: int|
        0 <= i < ids.len() - 1 ==> st.info.contains_key(#[trigger] ids[i]) && {
            let e = st.info[ids[i]];
            &&& !e.in_progress
            &&& e.deferred == seq![reference(ids[i + 1])]
        }
}

/// The depth guard: a chain of aliases with more links than half the budget
/// cannot be resolved. The resolution fails with `DepthExceeded`, and the
/// table and the diagnostics are as they were before.
pub proof fn law_depth_guard(o: Outer, st: State, ids: Seq<IdView>, budget: nat)
    requires
        alias_chain(st, ids),
        budget <= 2 * (ids.len() - 1),
    ensures
        resolve_id(o, st, ids[0], budget) == (
            st,
            Err::<FoundView, EngineError>(EngineError::DepthExceeded),
        ),
        find_type_spec(o, st, ids[0], budget) == (
            st,
            Err::<Option<Seq<TypeView>>, EngineError>(EngineError::DepthExceeded),
        ),
    decreases ids.len(),
{
    if budget == 0 {
    } else {
        let id = ids[0];
        let e = st.info[id];
        let marked = with_entry(st, id, EntryView { in_progress: true, ..e });
        let b1 = (budget - 1) as nat;
        let next = reference(ids[1]);
        assert(next->args.len() == 0);
        assert(e.deferred[0] == next);
        reveal_with_fuel(resolve_all, 2);
        if b1 == 0 {
            assert(resolve_type(o, marked, next, b1) == (
                marked,
                Err::<TypeView, EngineError>(EngineError::DepthExceeded),
            ));
        } else {
            let rest = ids.subrange(1, ids.len() as int);
            assert(alias_chain(marked, rest)) by {
                assert forall|i: int| 0 <= i < rest.len() - 1 implies marked.info.contains_key(
                    #[trigger] rest[i],
                ) && {
                    let x = marked.info[rest[i]];
                    &&& !x.in_progress
                    &&& x.deferred == seq![reference(rest[i + 1])]
                } by {
                    assert(rest[i] == ids[i + 1]);
                    assert(rest[i + 1] == ids[i + 2]);
                    assert(ids[i + 1] != ids[0]);
                }
            }
            law_depth_guard(o, marked, rest, (budget - 2) as nat);
            assert(rest[0] == ids[1]);
            assert(resolve_type(o, marked, next, b1) == (
                marked,
                Err::<TypeView, EngineError>(EngineError::DepthExceeded),
            ));
        }
        assert(resolve_all(o, marked, e.deferred, 0, b1) == (
            marked,
            Err::<Seq<TypeView>, EngineError>(EngineError::DepthExceeded),
        ));
        assert(with_entry(marked, id, e).info =~= st.info);
    }
}

/// The depth guard stops an instantiation that would never end. Where a
/// generic declaration of one parameter stands for a reference to itself,
/// every reference to it with one argument fails with `DepthExceeded`,
/// whatever the budget, and leaves the table and the diagnostics as they
/// were.
pub proof fn law_runaway_instantiation_is_stopped(
    o: Outer,
    st: State,
    a: IdView,
    p: IdView,
    inner: Seq<TypeView>,
    args: Seq<TypeView>,
    budget: nat,
)
    requires
        st.info.contains_key(a),
        st.info[a] == settled(
            TypeView::Generic {
                type_params: seq![p],
                body: Box::new(TypeView::Ref { id: a, args: inner }),
            },
        ),
        inner.len() == 1,
        args.len() == 1,
    ensures
        resolve_type(o, st, TypeView::Ref { id: a, args }, budget) == (
            st,
            Err::<TypeView, EngineError>(EngineError::DepthExceeded),
        ),
    decreases budget,
{
    if budget >= 2 {
        let declared = TypeView::Generic {
            type_params: seq![p],
            body: Box::new(TypeView::Ref { id: a, args: inner }),
        };
        assert(resolve_id(o, st, a, (budget - 1) as nat) == (
            st,
            Ok::<FoundView, EngineError>(FoundView::Candidates(seq![declared])),
        ));
        assert(collapse(seq![declared]) == declared);
        let next = crate::ty::subst_all(inner, seq![p], args);
        assert(crate::ty::subst(TypeView::Ref { id: a, args: inner }, seq![p], args)
            == TypeView::Ref { id: a, args: next });
        assert(instance(declared, args) == Some(TypeView::Ref { id: a, args: next }));
        law_runaway_instantiation_is_stopped(o, st, a, p, inner, next, (budget - 1) as nat);
        assert(resolve_type(o, st, TypeView::Ref { id: a, args: next }, (budget - 1) as nat) == (
            st,
            Err::<TypeView, EngineError>(EngineError::DepthExceeded),
        ));
    } else if budget == 1 {
        assert(resolve_id(o, st, a, 0) == (
            st,
            Err::<FoundView, EngineError>(EngineError::DepthExceeded),
        ));
    }
}

/// A generic declaration stands for its body with the arguments in place of
/// the parameters: a reference with arguments to a declaration whose body is
/// its own parameter resolves to what the argument resolves to.
pub proof fn law_instantiation_puts_arguments_in_place(
    o: Outer,
    st: State,
    a: IdView,
    p: IdView,
    arg: TypeView,
    budget: nat,
)
    requires
        st.info.contains_key(a),
        st.info[a] == settled(
            TypeView::Generic { type_params: seq![p], body: Box::new(TypeView::Param(p)) },
        ),
        budget >= 2,
    ensures
        resolve_type(o, st, TypeView::Ref { id: a, args: seq![arg] }, budget) == resolve_type(
            o,
            st,
            arg,
            (budget - 1) as nat,
        ),
{
    let declared = TypeView::Generic {
        type_params: seq![p],
        body: Box::new(TypeView::Param(p)),
    };
    assert(resolve_id(o, st, a, (budget - 1) as nat) == (
        st,
        Ok::<FoundView, EngineError>(FoundView::Candidates(seq![declared])),
    ));
    assert(collapse(seq![declared]) == declared);
    assert(crate::ty::position(seq![p], p) == 0);
    assert(instance(declared, seq![arg]) == Some(arg));
}

/// Whether `after` may follow `before` in a resolution: the same
/// identifiers are declared, every marker is as it was, and the diagnostics
/// of `before` are the first of `after`.
pub open spec fn steady(before: State, after: State) -> bool {
    &&& forall|x: IdView|
        #![trigger after.info.contains_key(x)]
        #![trigger before.info.contains_key(x)]
        after.info.contains_key(x) == before.info.contains_key(x) && (before.info.contains_key(x)
            ==> after.info[x].in_progress == before.info[x].in_progress)
    &&& before.diagnostics.is_prefix_of(after.diagnostics)
}

proof fn lemma_settle_appends(
    c: Seq<TypeView>,
    d: Seq<DiagnosticView>,
    id: IdView,
    ts: Seq<TypeView>,
    i: nat,
)
    ensures
        d.is_prefix_of(settle(c, d, id, ts, i).1),
    decreases ts.len() - i,
{
    if i < ts.len() {
        match crate::merge::merged_with(c, ts[i as int]) {
            Some(n) => lemma_settle_appends(n, d, id, ts, i + 1),
            None => {
                let more = d.push(DiagnosticView::Redeclared(id));
                lemma_settle_appends(c, more, id, ts, i + 1);
                assert(d.is_prefix_of(more));
            },
        }
    }
}

proof fn lemma_type_steady(o: Outer, st: State, t: TypeView, budget: nat)
    ensures
        steady(st, resolve_type(o, st, t, budget).0),
    decreases budget, 0nat,
{
    if budget > 0 {
        match t {
            TypeView::Ref { id, args } => {
                lemma_id_steady(o, st, id, (budget - 1) as nat);
                let (s1, r) = resolve_id(o, st, id, (budget - 1) as nat);
                match r {
                    Ok(FoundView::Candidates(c)) => {
                        if args.len() > 0 {
                            match instance(collapse(c), args) {
                                Some(i) => {
                                    lemma_type_steady(o, s1, i, (budget - 1) as nat);
                                },
                                None => {},
                            }
                        }
                    },
                    Ok(FoundView::Missing) => {
                        assert(s1.diagnostics.is_prefix_of(
                            s1.diagnostics.push(DiagnosticView::NameNotFound(id)),
                        ));
                    },
                    Ok(FoundView::Cyclic) => {
                        assert(s1.diagnostics.is_prefix_of(
                            s1.diagnostics.push(DiagnosticView::IllegalCycle(id)),
                        ));
                    },
                    Ok(FoundView::Unresolved) => {},
                    Err(_) => {},
                }
            },
            TypeView::Union(ts) => {
                lemma_all_steady(o, st, ts, 0, (budget - 1) as nat);
            },
            TypeView::Intersection(ts) => {
                lemma_all_steady(o, st, ts, 0, (budget - 1) as nat);
            },
            _ => {},
        }
    }
}

proof fn lemma_all_steady(o: Outer, st: State, ts: Seq<TypeView>, i: nat, budget: nat)
    ensures
        steady(st, resolve_all(o, st, ts, i, budget).0),
    decreases budget, ts.len() - i,
{
    if i < ts.len() {
        lemma_type_steady(o, st, ts[i as int], budget);
        let (s1, r1) = resolve_type(o, st, ts[i as int], budget);
        if r1.is_ok() {
            lemma_all_steady(o, s1, ts, i + 1, budget);
        }
    }
}

proof fn lemma_id_steady(o: Outer, st: State, id: IdView, budget: nat)
    ensures
        steady(st, resolve_id(o, st, id, budget).0),
    decreases budget, 0nat,
{
    if budget > 0 && st.info.contains_key(id) {
        let e = st.info[id];
        if !e.in_progress && e.deferred.len() > 0 {
            let marked = with_entry(st, id, EntryView { in_progress: true, ..e });
            lemma_all_steady(o, marked, e.deferred, 0, (budget - 1) as nat);
            let (s1, r) = resolve_all(o, marked, e.deferred, 0, (budget - 1) as nat);
            assert(marked.info.contains_key(id));
            match r {
                Ok(ts) => {
                    lemma_settle_appends(e.resolved, s1.diagnostics, id, ts, 0);
                },
                Err(_) => {},
            }
        }
    }
}

/// What every query leaves as it found it. A query declares no identifier
/// and forgets none; it leaves no marker behind and removes none, whether it
/// succeeds or fails; and it only adds to the diagnostics that were there.
pub proof fn law_queries_are_steady(o: Outer, st: State, id: IdView, t: TypeView, budget: nat)
    ensures
        steady(st, find_type_spec(o, st, id, budget).0),
        steady(st, resolve_type(o, st, t, budget).0),
{
    lemma_id_steady(o, st, id, budget);
    lemma_type_steady(o, st, t, budget);
}

/// An answer is never empty: where a query answers with candidates, there is
/// at least one. A name that holds nothing at all counts as undeclared, and
/// a name of an outer scope whose declarations still wait is a fault of the
/// engine, not an answer.
pub proof fn law_answers_are_never_empty(o: Outer, st: State, id: IdView, budget: nat)
    ensures
        match find_type_spec(o, st, id, budget).1 {
            Ok(Some(c)) => c.len() > 0,
            _ => true,
        },
{
    lemma_candidates_are_some(o, st, id, budget);
}

/// A name that the module declares itself is never answered with nothing:
/// with a declaration of `id` registered, the query gives at least one
/// candidate, unless the engine fails.
pub proof fn law_declared_names_have_candidates(
    o: Outer,
    st: State,
    id: IdView,
    body: TypeView,
    budget: nat,
)
    requires
        st.info.contains_key(id) ==> !st.info[id].in_progress,
    ensures
        match find_type_spec(o, register_in(st, id, body), id, budget).1 {
            Ok(Some(c)) => c.len() > 0,
            Ok(None) => false,
            Err(_) => true,
        },
{
    lemma_candidates_are_some(o, register_in(st, id, body), id, budget);
}

/// A query that was answered is answered from the table from then on: asked
/// again, with whatever budget, it gives the same answer, resolves nothing
/// and reports nothing.
pub proof fn law_answers_are_kept(o: Outer, st: State, id: IdView, budget: nat, again: nat)
    requires
        find_type_spec(o, st, id, budget).1.is_ok(),
        again > 0,
    ensures
        ({
            let (s1, r) = find_type_spec(o, st, id, budget);
            find_type_spec(o, s1, id, again) == (s1, r)
        }),
{
    lemma_candidates_are_some(o, st, id, budget);
}

/// A resolution step with no budget left fails at once and changes nothing.
pub proof fn law_exhausted_budget(o: Outer, st: State, id: IdView, t: TypeView)
    ensures
        resolve_id(o, st, id, 0) == (st, Err::<FoundView, EngineError>(EngineError::DepthExceeded)),
        resolve_type(o, st, t, 0) == (
            st,
            Err::<TypeView, EngineError>(EngineError::DepthExceeded),
        ),
{
}

} // verus!
