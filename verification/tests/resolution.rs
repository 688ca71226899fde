use stc_ts_file_analyzer::analyzer::{Analyzer, Config, Diagnostic};
use stc_ts_file_analyzer::bindings::{Bindings, Entry};
use stc_ts_file_analyzer::env::{Env, EsVersion, ModuleConfig, Rule};
use stc_ts_file_analyzer::id::{Id, Mark};
use stc_ts_file_analyzer::loader::NoopLoader;
use stc_ts_file_analyzer::module::{Decl, Module};
use stc_ts_file_analyzer::module_id::{FileName, ModuleId};
use stc_ts_file_analyzer::resolve::EngineError;
use stc_ts_file_analyzer::storage::Storage;
use stc_ts_file_analyzer::ty::{Keyword, Lit, Member, Type};

fn bare_env() -> Env {
    Env {
        rule: Rule::default(),
        target: EsVersion::latest(),
        module: ModuleConfig::Plain,
        builtin: Bindings::new(),
    }
}

fn analyzer_with<'a>(mark: Mark, max_depth: u32) -> Analyzer<'a, NoopLoader> {
    let storage =
        Storage::new(None, ModuleId(1), mark, FileName::Real("test.ts".to_string()), false);
    Analyzer::root(bare_env(), Config { max_depth }, storage, &NoopLoader, None)
}

fn analyzer<'a>(mark: Mark) -> Analyzer<'a, NoopLoader> {
    analyzer_with(mark, Config::default().max_depth)
}

fn decl(name: &str, mark: Mark, body: Type) -> Decl {
    Decl::Type { id: Id::new(name, mark), body }
}

fn reference(name: &str, mark: Mark) -> Type {
    Type::Ref { id: Id::new(name, mark), args: vec![] }
}

fn member(key: &str, ty: Type) -> Member {
    Member { key: key.to_string(), optional: false, ty }
}

fn number() -> Type {
    Type::Keyword(Keyword::Number)
}

fn string() -> Type {
    Type::Keyword(Keyword::String)
}

fn any() -> Type {
    Type::Keyword(Keyword::Any)
}

#[test]
fn alias_of_alias_resolves_to_the_primitive() {
    let m = Mark(1);
    let mut a = analyzer(m);
    a.visit(&Module { body: vec![decl("A", m, number()), decl("B", m, reference("A", m))] });
    let b = a.find_type(&Id::new("B", m)).unwrap().unwrap();
    let a_ty = a.find_type(&Id::new("A", m)).unwrap().unwrap();
    assert_eq!(b, vec![number()]);
    assert_eq!(b, a_ty);
    assert!(a.diagnostics.is_empty());
}

#[test]
fn interfaces_of_one_name_merge_into_one_shape() {
    let m = Mark(1);
    let mut a = analyzer(m);
    a.visit(&Module {
        body: vec![
            decl("X", m, Type::Object { members: vec![member("a", string())] }),
            decl("X", m, Type::Object { members: vec![member("b", number())] }),
        ],
    });
    let x = a.find_type(&Id::new("X", m)).unwrap().unwrap();
    assert_eq!(
        x,
        vec![Type::Object { members: vec![member("a", string()), member("b", number())] }]
    );
    assert!(a.diagnostics.is_empty());
}

#[test]
fn same_text_under_two_markers_names_two_bindings() {
    let m1 = Mark(1);
    let m2 = Mark(2);
    let mut a = analyzer(m1);
    a.declare(Id::new("x", m2), string());
    assert_eq!(a.find_type(&Id::new("x", m2)).unwrap(), Some(vec![string()]));
    assert_eq!(a.find_type(&Id::new("x", m1)).unwrap(), None);
    a.declare(Id::new("x", m1), number());
    assert_eq!(a.find_type(&Id::new("x", m1)).unwrap(), Some(vec![number()]));
    assert_eq!(a.find_type(&Id::new("x", m2)).unwrap(), Some(vec![string()]));
    assert!(a.diagnostics.is_empty());
}

#[test]
fn a_declaration_changes_a_query_that_leads_to_it() {
    // The one case in which a declaration for one name shows in the query
    // for another: the other one waits to be resolved and refers to it.
    let m1 = Mark(1);
    let m2 = Mark(2);
    let mut without = analyzer(m1);
    without.register(Id::new("x", m2), reference("x", m1));
    assert_eq!(without.find_type(&Id::new("x", m2)).unwrap(), Some(vec![any()]));
    assert_eq!(without.diagnostics, vec![Diagnostic::NameNotFound(Id::new("x", m1))]);

    let mut with = analyzer(m1);
    with.register(Id::new("x", m2), reference("x", m1));
    with.declare(Id::new("x", m1), number());
    assert_eq!(with.find_type(&Id::new("x", m2)).unwrap(), Some(vec![number()]));
    assert!(with.diagnostics.is_empty());
}

#[test]
fn two_declared_objects_are_both_kept() {
    let m = Mark(7);
    let mut a = analyzer(m);
    a.declare(Id::new("P", m), Type::Object { members: vec![member("x", number())] });
    a.declare(Id::new("P", m), Type::Object { members: vec![member("y", number())] });
    assert_eq!(
        a.find_type(&Id::new("P", m)).unwrap(),
        Some(vec![Type::Object { members: vec![member("x", number()), member("y", number())] }])
    );
    assert!(a.diagnostics.is_empty());
}

#[test]
fn an_object_after_a_primitive_is_reported() {
    let m = Mark(7);
    let mut a = analyzer(m);
    a.declare(Id::new("P", m), number());
    a.declare(Id::new("P", m), Type::Object { members: vec![member("x", number())] });
    a.declare(Id::new("P", m), Type::Object { members: vec![member("y", number())] });
    assert_eq!(a.find_type(&Id::new("P", m)).unwrap(), Some(vec![number()]));
    assert_eq!(
        a.diagnostics,
        vec![Diagnostic::Redeclared(Id::new("P", m)), Diagnostic::Redeclared(Id::new("P", m))]
    );
}

#[test]
fn function_signatures_stand_side_by_side() {
    let m = Mark(3);
    let f1 = Type::Function { type_params: vec![], params: vec![number()], ret: Box::new(string()) };
    let f2 = Type::Function { type_params: vec![], params: vec![string()], ret: Box::new(number()) };
    let mut a = analyzer(m);
    a.visit(&Module { body: vec![decl("f", m, f1.clone()), decl("f", m, f2.clone())] });
    assert_eq!(a.find_type(&Id::new("f", m)).unwrap(), Some(vec![f1.clone(), f2.clone()]));
    // A reference to an overloaded name stands for all of its signatures.
    assert_eq!(a.expand(&reference("f", m)).unwrap(), Type::Intersection(vec![f1, f2]));
    assert!(a.diagnostics.is_empty());
}

#[test]
fn a_second_alias_of_one_name_is_reported_and_the_first_stays() {
    let m = Mark(3);
    let mut a = analyzer(m);
    a.visit(&Module { body: vec![decl("A", m, number()), decl("A", m, string())] });
    assert_eq!(a.find_type(&Id::new("A", m)).unwrap(), Some(vec![number()]));
    assert_eq!(a.diagnostics, vec![Diagnostic::Redeclared(Id::new("A", m))]);
}

#[test]
fn a_local_declaration_wins_over_the_parent_chain() {
    let m = Mark(1);
    let inner_mark = Mark(1);
    let mut global = Storage::new(None, ModuleId::builtin(), Mark(0), FileName::Anon, true);
    assert!(global.declare(Id::new("T", m), string()));
    assert!(global.declare(Id::new("U", m), Type::Keyword(Keyword::Boolean)));
    let mut outer = Storage::new(Some(&global), ModuleId(1), m, FileName::Anon, false);
    assert!(outer.declare(Id::new("V", m), Type::Keyword(Keyword::Void)));
    let inner = Storage::new(Some(&outer), ModuleId(1), inner_mark, FileName::Anon, false);
    let mut a = Analyzer::root(bare_env(), Config::default(), inner, &NoopLoader, None);
    // Declared after the parent had its candidate: the local one wins.
    a.register(Id::new("T", m), number());
    assert_eq!(a.find_type(&Id::new("T", m)).unwrap(), Some(vec![number()]));
    // Not declared locally: found two scopes out, and one scope out.
    assert_eq!(
        a.find_type(&Id::new("U", m)).unwrap(),
        Some(vec![Type::Keyword(Keyword::Boolean)])
    );
    assert_eq!(a.find_type(&Id::new("V", m)).unwrap(), Some(vec![Type::Keyword(Keyword::Void)]));
    assert_eq!(a.find_type(&Id::new("W", m)).unwrap(), None);
}

#[test]
fn shadowed_candidates_are_not_mixed_in() {
    let m = Mark(1);
    let mut parent = Storage::new(None, ModuleId(2), m, FileName::Anon, false);
    let shape = |k: &str| Type::Object { members: vec![member(k, number())] };
    assert!(parent.declare(Id::new("S", m), shape("outer")));
    let mut child = Storage::new(Some(&parent), ModuleId(3), m, FileName::Anon, false);
    assert!(child.declare(Id::new("S", m), shape("inner")));
    let found = child.lookup(&Id::new("S", m));
    match found {
        stc_ts_file_analyzer::storage::Found::Candidates(c) => assert_eq!(c, vec![shape("inner")]),
        other => panic!("unexpected {:?}", other),
    }
}

#[test]
fn builtin_declarations_are_the_last_resort() {
    let m = Mark(1);
    let mut builtin = Bindings::new();
    builtin.set(
        Id::new("Date", m),
        Entry { resolved: vec![Type::Object { members: vec![] }], deferred: vec![], in_progress: false },
    );
    let env = Env {
        rule: Rule::default(),
        target: EsVersion::latest(),
        module: ModuleConfig::Plain,
        builtin,
    };
    let storage = Storage::new(None, ModuleId(1), m, FileName::Anon, false);
    let mut a = Analyzer::root(env, Config::default(), storage, &NoopLoader, None);
    assert_eq!(
        a.find_type(&Id::new("Date", m)).unwrap(),
        Some(vec![Type::Object { members: vec![] }])
    );
    a.register(Id::new("Date", m), number());
    assert_eq!(a.find_type(&Id::new("Date", m)).unwrap(), Some(vec![number()]));
}

#[test]
fn a_later_declaration_can_be_referred_to() {
    let m = Mark(1);
    let mut a = analyzer(m);
    a.visit(&Module { body: vec![decl("B", m, reference("A", m)), decl("A", m, string())] });
    assert_eq!(a.find_type(&Id::new("B", m)).unwrap(), Some(vec![string()]));
    assert_eq!(a.find_type(&Id::new("A", m)).unwrap(), Some(vec![string()]));
    assert!(a.diagnostics.is_empty());
}

#[test]
fn registration_order_of_different_names_does_not_matter() {
    let m = Mark(1);
    let mut one = analyzer(m);
    one.register(Id::new("B", m), reference("A", m));
    one.register(Id::new("A", m), string());
    let mut two = analyzer(m);
    two.register(Id::new("A", m), string());
    two.register(Id::new("B", m), reference("A", m));
    assert_eq!(one.find_type(&Id::new("B", m)), two.find_type(&Id::new("B", m)));
    assert_eq!(one.diagnostics, two.diagnostics);
}

#[test]
fn an_alias_of_itself_is_one_illegal_cycle() {
    let m = Mark(1);
    let mut a = analyzer(m);
    a.visit(&Module { body: vec![decl("T", m, reference("T", m))] });
    assert_eq!(a.diagnostics, vec![Diagnostic::IllegalCycle(Id::new("T", m))]);
    assert_eq!(a.find_type(&Id::new("T", m)).unwrap(), Some(vec![any()]));
    // The placeholder is kept: a second query reports nothing more.
    assert_eq!(a.diagnostics.len(), 1);
}

#[test]
fn a_cycle_through_two_aliases_is_reported_once() {
    let m = Mark(1);
    let mut a = analyzer(m);
    a.visit(&Module { body: vec![decl("A", m, reference("B", m)), decl("B", m, reference("A", m))] });
    assert_eq!(a.diagnostics, vec![Diagnostic::IllegalCycle(Id::new("A", m))]);
    assert_eq!(a.find_type(&Id::new("A", m)).unwrap(), Some(vec![any()]));
    assert_eq!(a.find_type(&Id::new("B", m)).unwrap(), Some(vec![any()]));
}

#[test]
fn a_shape_with_a_member_of_its_own_type_is_legal() {
    let m = Mark(1);
    let node = Type::Object {
        members: vec![
            member("value", number()),
            Member { key: "next".to_string(), optional: true, ty: reference("Node", m) },
        ],
    };
    let mut a = analyzer(m);
    a.visit(&Module { body: vec![decl("Node", m, node.clone())] });
    assert!(a.diagnostics.is_empty());
    let found = a.find_type(&Id::new("Node", m)).unwrap().unwrap();
    assert_eq!(found, vec![node.clone()]);
    // The member that mentions the shape resolves to the shape again.
    match &found[0] {
        Type::Object { members } => assert_eq!(a.expand(&members[1].ty).unwrap(), node),
        other => panic!("unexpected {:?}", other),
    }
}

fn chain(m: Mark, links: usize) -> Module {
    // A0 = A1, A1 = A2, ..., A(links-1) = A(links), A(links) = number
    let mut body = Vec::new();
    for i in 0..links {
        body.push(decl(&format!("A{}", i), m, reference(&format!("A{}", i + 1), m)));
    }
    body.push(decl(&format!("A{}", links), m, number()));
    Module { body }
}

#[test]
fn nesting_beyond_the_maximum_is_resource_exhaustion() {
    let m = Mark(1);
    // Every link takes two levels and the last name takes two more: one
    // link fits into a maximum of four, two links do not.
    let mut a = analyzer_with(m, 4);
    for d in chain(m, 1).body {
        match d {
            Decl::Type { id, body } => a.register(id, body),
            Decl::Import { .. } => unreachable!(),
        }
    }
    assert_eq!(a.find_type(&Id::new("A0", m)), Ok(Some(vec![number()])));

    let mut b = analyzer_with(m, 4);
    for d in chain(m, 2).body {
        match d {
            Decl::Type { id, body } => b.register(id, body),
            Decl::Import { .. } => unreachable!(),
        }
    }
    assert_eq!(b.find_type(&Id::new("A0", m)), Err(EngineError::DepthExceeded));
    // Nothing was reported, no marker was left behind, and what lies within
    // reach still resolves.
    assert!(b.diagnostics.is_empty());
    assert_eq!(b.find_type(&Id::new("A0", m)), Err(EngineError::DepthExceeded));
    assert_eq!(b.find_type(&Id::new("A1", m)), Ok(Some(vec![number()])));
    // With the tail resolved the head is within reach too.
    assert_eq!(b.find_type(&Id::new("A0", m)), Ok(Some(vec![number()])));
}

#[test]
fn the_default_depth_is_256() {
    assert_eq!(Config::default().max_depth, 256);
    let m = Mark(1);
    let mut a = analyzer(m);
    // 127 links are the longest chain that fits.
    for d in chain(m, 127).body {
        match d {
            Decl::Type { id, body } => a.register(id, body),
            Decl::Import { .. } => unreachable!(),
        }
    }
    assert_eq!(a.find_type(&Id::new("A0", m)), Ok(Some(vec![number()])));
    let mut b = analyzer(m);
    for d in chain(m, 128).body {
        match d {
            Decl::Type { id, body } => b.register(id, body),
            Decl::Import { .. } => unreachable!(),
        }
    }
    assert_eq!(b.find_type(&Id::new("A0", m)), Err(EngineError::DepthExceeded));
}

#[test]
fn a_traversal_reports_exhaustion_and_goes_on() {
    let m = Mark(1);
    let mut a = analyzer_with(m, 2);
    // With a maximum of two, only a name that needs no other resolves when
    // nothing is in the table yet.
    let mut module = chain(m, 2);
    module.body.push(decl("Z", m, string()));
    a.visit(&module);
    assert_eq!(
        a.diagnostics,
        vec![
            Diagnostic::ResourceExhausted(Id::new("A0", m)),
            Diagnostic::ResourceExhausted(Id::new("A1", m)),
        ]
    );
    assert_eq!(a.find_type(&Id::new("Z", m)), Ok(Some(vec![string()])));
    assert_eq!(a.find_type(&Id::new("A2", m)), Ok(Some(vec![number()])));
    // The traversal left the table usable: with A2 resolved, A1 is within
    // reach now.
    assert_eq!(a.find_type(&Id::new("A1", m)), Ok(Some(vec![number()])));
}

#[test]
fn a_depth_of_zero_allows_what_is_already_there() {
    let m = Mark(1);
    let mut a = analyzer_with(m, 0);
    a.declare(Id::new("K", m), number());
    assert_eq!(a.find_type(&Id::new("K", m)), Ok(Some(vec![number()])));
    assert_eq!(a.find_type(&Id::new("missing", m)), Ok(None));
    a.register(Id::new("L", m), number());
    assert_eq!(a.find_type(&Id::new("L", m)), Err(EngineError::DepthExceeded));
    let mut b = analyzer_with(m, 1);
    b.register(Id::new("L", m), number());
    assert_eq!(b.find_type(&Id::new("L", m)), Ok(Some(vec![number()])));
}

#[test]
fn an_undeclared_name_is_none_and_no_error() {
    let m = Mark(1);
    let mut a = analyzer(m);
    assert_eq!(a.find_type(&Id::new("nowhere", m)), Ok(None));
    assert!(a.diagnostics.is_empty());
}

#[test]
fn a_reference_to_an_undeclared_name_is_reported_and_becomes_any() {
    let m = Mark(1);
    let mut a = analyzer(m);
    a.visit(&Module { body: vec![decl("A", m, reference("Missing", m))] });
    assert_eq!(a.diagnostics, vec![Diagnostic::NameNotFound(Id::new("Missing", m))]);
    assert_eq!(a.find_type(&Id::new("A", m)), Ok(Some(vec![any()])));
}

#[test]
fn a_marker_left_behind_is_an_engine_fault() {
    let m = Mark(1);
    let mut a = analyzer(m);
    a.storage.info.set(
        Id::new("stuck", m),
        Entry { resolved: vec![], deferred: vec![number()], in_progress: true },
    );
    assert_eq!(a.find_type(&Id::new("stuck", m)), Err(EngineError::InvariantViolated));
    a.visit(&Module { body: vec![decl("stuck", m, string())] });
    assert_eq!(a.diagnostics, vec![Diagnostic::Internal(Id::new("stuck", m))]);
}

#[test]
fn operands_of_unions_and_intersections_are_resolved() {
    let m = Mark(1);
    let mut a = analyzer(m);
    a.visit(&Module {
        body: vec![
            decl("N", m, number()),
            decl("S", m, string()),
            decl("U", m, Type::Union(vec![reference("N", m), reference("S", m)])),
            decl(
                "I",
                m,
                Type::Intersection(vec![reference("U", m), Type::Lit(Lit::Bool(true))]),
            ),
        ],
    });
    assert_eq!(
        a.find_type(&Id::new("U", m)),
        Ok(Some(vec![Type::Union(vec![number(), string()])]))
    );
    assert_eq!(
        a.find_type(&Id::new("I", m)),
        Ok(Some(vec![Type::Intersection(vec![
            Type::Union(vec![number(), string()]),
            Type::Lit(Lit::Bool(true)),
        ])]))
    );
    assert!(a.diagnostics.is_empty());
}

#[test]
fn a_self_reference_inside_a_union_is_illegal() {
    let m = Mark(1);
    let mut a = analyzer(m);
    a.visit(&Module { body: vec![decl("T", m, Type::Union(vec![reference("T", m), number()]))] });
    assert_eq!(a.diagnostics, vec![Diagnostic::IllegalCycle(Id::new("T", m))]);
    assert_eq!(a.find_type(&Id::new("T", m)), Ok(Some(vec![Type::Union(vec![any(), number()])])));
}

#[test]
fn what_lies_behind_a_boundary_is_left_for_later() {
    let m = Mark(1);
    let function = Type::Function {
        type_params: vec![Id::new("T", Mark(9))],
        params: vec![Type::Param(Id::new("T", Mark(9))), reference("A", m)],
        ret: Box::new(reference("Nowhere", m)),
    };
    let conditional = Type::Conditional {
        check: Box::new(reference("A", m)),
        extends: Box::new(string()),
        truthy: Box::new(number()),
        falsy: Box::new(Type::Keyword(Keyword::Never)),
    };
    let mapped = Type::Mapped {
        param: Id::new("K", Mark(9)),
        constraint: Box::new(reference("A", m)),
        value: Box::new(number()),
    };
    let indexed = Type::IndexedAccess {
        object: Box::new(reference("A", m)),
        index: Box::new(Type::Lit(Lit::Str("x".to_string()))),
    };
    let mut a = analyzer(m);
    a.register(Id::new("A", m), string());
    let generic = Type::Generic {
        type_params: vec![Id::new("T", Mark(9))],
        body: Box::new(reference("Nowhere", m)),
    };
    for t in
        [function, conditional, mapped, indexed, generic, Type::Param(Id::new("T", Mark(9)))]
    {
        assert_eq!(a.expand(&t).unwrap(), t);
    }
    assert!(a.diagnostics.is_empty());
}

fn generic(params: &[&str], mark: Mark, body: Type) -> Type {
    Type::Generic {
        type_params: params.iter().map(|p| Id::new(p, mark)).collect(),
        body: Box::new(body),
    }
}

fn applied(name: &str, m: Mark, args: Vec<Type>) -> Type {
    Type::Ref { id: Id::new(name, m), args }
}

#[test]
fn arguments_take_the_place_of_parameters() {
    let m = Mark(1);
    let p = Mark(9);
    let mut a = analyzer(m);
    a.visit(&Module {
        body: vec![
            decl("Same", m, generic(&["T"], p, Type::Param(Id::new("T", p)))),
            decl(
                "Pair",
                m,
                generic(
                    &["A", "B"],
                    p,
                    Type::Object {
                        members: vec![
                            member("first", Type::Param(Id::new("A", p))),
                            member("second", Type::Param(Id::new("B", p))),
                        ],
                    },
                ),
            ),
            decl("N", m, number()),
            decl("X", m, applied("Same", m, vec![reference("N", m)])),
            decl("Y", m, applied("Pair", m, vec![string(), reference("N", m)])),
            decl("Z", m, applied("Same", m, vec![applied("Same", m, vec![string()])])),
        ],
    });
    assert!(a.diagnostics.is_empty());
    // The argument lands at the top and is resolved there.
    assert_eq!(a.find_type(&Id::new("X", m)), Ok(Some(vec![number()])));
    assert_eq!(a.find_type(&Id::new("Z", m)), Ok(Some(vec![string()])));
    // Behind the boundary of the shape the argument stays as it was written.
    assert_eq!(
        a.find_type(&Id::new("Y", m)),
        Ok(Some(vec![Type::Object {
            members: vec![member("first", string()), member("second", reference("N", m))],
        }]))
    );
    // A generic name without arguments stands for its declaration.
    assert_eq!(
        a.find_type(&Id::new("Same", m)),
        Ok(Some(vec![generic(&["T"], p, Type::Param(Id::new("T", p)))]))
    );
}

#[test]
fn a_reference_with_the_wrong_number_of_arguments_stays_as_written() {
    let m = Mark(1);
    let p = Mark(9);
    let mut a = analyzer(m);
    a.register(Id::new("Same", m), generic(&["T"], p, Type::Param(Id::new("T", p))));
    a.register(Id::new("Plain", m), number());
    for t in [
        applied("Same", m, vec![number(), string()]),
        applied("Plain", m, vec![number()]),
    ] {
        assert_eq!(a.expand(&t), Ok(t));
    }
    assert!(a.diagnostics.is_empty());
    // An undeclared name is reported, with arguments as without.
    assert_eq!(a.expand(&applied("Nowhere", m, vec![number()])), Ok(any()));
    assert_eq!(a.diagnostics, vec![Diagnostic::NameNotFound(Id::new("Nowhere", m))]);
}

#[test]
fn an_instantiation_without_end_is_stopped_by_the_depth_guard() {
    let m = Mark(1);
    let p = Mark(9);
    let array = |t: Type| Type::Object { members: vec![member("item", t)] };
    let mut a = analyzer(m);
    // Grow<T> = Grow<{ item: T }>
    a.visit(&Module {
        body: vec![
            decl(
                "Grow",
                m,
                generic(
                    &["T"],
                    p,
                    applied("Grow", m, vec![array(Type::Param(Id::new("T", p)))]),
                ),
            ),
            decl("Stops", m, applied("Grow", m, vec![number()])),
            decl("After", m, string()),
        ],
    });
    assert_eq!(a.diagnostics, vec![Diagnostic::ResourceExhausted(Id::new("Stops", m))]);
    assert_eq!(a.find_type(&Id::new("Stops", m)), Err(EngineError::DepthExceeded));
    assert_eq!(a.find_type(&Id::new("After", m)), Ok(Some(vec![string()])));
    assert_eq!(a.expand(&applied("Grow", m, vec![string()])), Err(EngineError::DepthExceeded));
}

#[test]
fn generic_shapes_of_one_name_merge_under_the_first_parameters() {
    let m = Mark(1);
    let first = generic(
        &["T"],
        Mark(8),
        Type::Object { members: vec![member("head", Type::Param(Id::new("T", Mark(8))))] },
    );
    let second = generic(
        &["U"],
        Mark(9),
        Type::Object {
            members: vec![member(
                "tail",
                applied("List", m, vec![Type::Param(Id::new("U", Mark(9)))]),
            )],
        },
    );
    let mut a = analyzer(m);
    a.visit(&Module { body: vec![decl("List", m, first), decl("List", m, second)] });
    assert!(a.diagnostics.is_empty());
    let t = Type::Param(Id::new("T", Mark(8)));
    assert_eq!(
        a.find_type(&Id::new("List", m)),
        Ok(Some(vec![generic(
            &["T"],
            Mark(8),
            Type::Object {
                members: vec![
                    member("head", t.clone()),
                    member("tail", applied("List", m, vec![t])),
                ],
            },
        )]))
    );
    assert_eq!(
        a.expand(&applied("List", m, vec![number()])),
        Ok(Type::Object {
            members: vec![
                member("head", number()),
                member("tail", applied("List", m, vec![number()])),
            ],
        })
    );
}

#[test]
fn resolution_is_kept_for_the_next_query() {
    let m = Mark(1);
    let mut a = analyzer(m);
    a.register(Id::new("A", m), reference("Missing", m));
    assert_eq!(a.find_type(&Id::new("A", m)), Ok(Some(vec![any()])));
    assert_eq!(a.diagnostics.len(), 1);
    // Answered from the table: nothing is resolved again, so nothing is
    // reported again.
    assert_eq!(a.find_type(&Id::new("A", m)), Ok(Some(vec![any()])));
    assert_eq!(a.diagnostics.len(), 1);
    let entry = a.storage.info.get(&Id::new("A", m)).unwrap();
    assert_eq!(entry.resolved, vec![any()]);
    assert!(entry.deferred.is_empty());
    assert!(!entry.in_progress);
}

#[test]
fn a_child_analyzer_knows_where_it_came_from() {
    let m = Mark(1);
    let parent = analyzer(m);
    let storage = Storage::new(None, ModuleId(5), Mark(5), FileName::Anon, false);
    let child = Analyzer::root(bare_env(), Config::default(), storage, &NoopLoader, Some(&parent));
    assert_eq!(child.origin, Some(ModuleId(1)));
    assert_eq!(parent.origin, None);
}
