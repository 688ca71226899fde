use stc_ts_file_analyzer::analyzer::{Analyzer, Config, Diagnostic};
use stc_ts_file_analyzer::bindings::{Bindings, Entry};
use stc_ts_file_analyzer::builtin::{holds, load_all, normalize, BuiltinCache, ConfigError, Lib};
use stc_ts_file_analyzer::env::{Env, EsVersion, ModuleConfig, Rule};
use stc_ts_file_analyzer::harness::{
    get_env, pair_source, run_test, test_two, PairFailure, QueryFailure,
};
use stc_ts_file_analyzer::id::{mark_of, Id, Mark};
use stc_ts_file_analyzer::loader::{Load, NoopLoader};
use stc_ts_file_analyzer::analyzer::{collapse, instantiate};
use stc_ts_file_analyzer::merge::{merge_into, params_as_types};
use stc_ts_file_analyzer::ty::{
    bind_all, bind_members, bind_params, find_param, in_scope, substitute_all,
    substitute_members, widened,
};
use stc_ts_file_analyzer::module::{Decl, Module};
use stc_ts_file_analyzer::module_id::{FileName, ModuleId, ModuleIdGenerator};
use stc_ts_file_analyzer::resolve::EngineError;
use stc_ts_file_analyzer::storage::{found_in, Found, Storage};
use stc_ts_file_analyzer::ty::{
    clone_types, ids_same, members_same, types_same, Keyword, Lit, Member, Type,
};

fn number() -> Type {
    Type::Keyword(Keyword::Number)
}

fn string() -> Type {
    Type::Keyword(Keyword::String)
}

fn member(key: &str, ty: Type) -> Member {
    Member { key: key.to_string(), optional: false, ty }
}

fn object(keys: &[&str]) -> Type {
    Type::Object { members: keys.iter().map(|k| member(k, number())).collect() }
}

fn function(param: Type) -> Type {
    Type::Function { type_params: vec![], params: vec![param], ret: Box::new(number()) }
}

fn decl(name: &str, mark: Mark, body: Type) -> Decl {
    Decl::Type { id: Id::new(name, mark), body }
}

fn reference(name: &str, mark: Mark) -> Type {
    Type::Ref { id: Id::new(name, mark), args: vec![] }
}

// ---- identifiers and types ----

#[test]
fn identifiers_compare_by_text_and_marker() {
    let a = Id::new("x", Mark(1));
    assert!(a.same(&Id::new("x", Mark(1))));
    assert!(!a.same(&Id::new("x", Mark(2))));
    assert!(!a.same(&Id::new("y", Mark(1))));
    assert_eq!(a, a.clone());
    assert_ne!(a, Id::new("x", Mark(2)));
    assert_eq!(a.name, "x");
    assert_eq!(a.mark, Mark(1));
}

#[test]
fn types_compare_by_shape() {
    let m = Mark(1);
    let samples = vec![
        number(),
        string(),
        Type::Lit(Lit::Bool(true)),
        Type::Lit(Lit::Bool(false)),
        Type::Lit(Lit::Number(1.5f64.to_bits())),
        Type::Lit(Lit::Number(2.5f64.to_bits())),
        Type::Lit(Lit::Str("a".to_string())),
        Type::Lit(Lit::Str("b".to_string())),
        reference("A", m),
        reference("A", Mark(2)),
        Type::Ref { id: Id::new("A", m), args: vec![number()] },
        Type::Param(Id::new("A", m)),
        object(&["a"]),
        object(&["a", "b"]),
        Type::Object { members: vec![Member { key: "a".to_string(), optional: true, ty: number() }] },
        Type::Object { members: vec![member("a", string())] },
        Type::Union(vec![number(), string()]),
        Type::Union(vec![string(), number()]),
        Type::Intersection(vec![number(), string()]),
        function(number()),
        function(string()),
        Type::Function { type_params: vec![Id::new("T", m)], params: vec![number()], ret: Box::new(number()) },
        Type::Function { type_params: vec![], params: vec![number()], ret: Box::new(string()) },
        Type::Conditional {
            check: Box::new(number()),
            extends: Box::new(string()),
            truthy: Box::new(number()),
            falsy: Box::new(string()),
        },
        Type::Conditional {
            check: Box::new(number()),
            extends: Box::new(string()),
            truthy: Box::new(string()),
            falsy: Box::new(string()),
        },
        Type::Mapped { param: Id::new("K", m), constraint: Box::new(string()), value: Box::new(number()) },
        Type::Mapped { param: Id::new("J", m), constraint: Box::new(string()), value: Box::new(number()) },
        Type::IndexedAccess { object: Box::new(object(&["a"])), index: Box::new(string()) },
        Type::IndexedAccess { object: Box::new(object(&["a"])), index: Box::new(number()) },
    ];
    for (i, a) in samples.iter().enumerate() {
        for (j, b) in samples.iter().enumerate() {
            assert_eq!(a.same(b), i == j, "{:?} against {:?}", a, b);
            assert_eq!(a == b, i == j);
        }
        // A copy occupies other storage and has the same shape.
        assert!(a.same(&a.clone()));
    }
    assert!(types_same(&samples, &clone_types(&samples)));
    assert!(!types_same(&samples, &samples[1..].to_vec()));
    assert!(members_same(&vec![member("a", number())], &vec![member("a", number())]));
    assert!(!members_same(&vec![member("a", number())], &vec![member("b", number())]));
    assert!(!members_same(&vec![member("a", number())], &vec![]));
    assert!(ids_same(&vec![Id::new("a", m)], &vec![Id::new("a", m)]));
    assert!(!ids_same(&vec![Id::new("a", m)], &vec![Id::new("a", Mark(3))]));
    assert!(number().is_object() == false && object(&[]).is_object());
    assert!(function(number()).is_function() && !object(&[]).is_function());
    assert!(Lit::Str("a".to_string()).same(&Lit::Str("a".to_string()).clone()));
    assert!(!Lit::Number(1).same(&Lit::Bool(true)));
}

// ---- merging ----

#[test]
fn merging_follows_the_kind_of_the_last_candidate() {
    let mut c: Vec<Type> = vec![];
    assert!(merge_into(&mut c, object(&["a"])));
    assert_eq!(c, vec![object(&["a"])]);
    assert!(merge_into(&mut c, object(&["b", "c"])));
    assert_eq!(c, vec![object(&["a", "b", "c"])]);
    assert!(!merge_into(&mut c, number()));
    assert!(!merge_into(&mut c, function(number())));
    assert_eq!(c, vec![object(&["a", "b", "c"])]);

    let mut f: Vec<Type> = vec![function(number())];
    assert!(merge_into(&mut f, function(string())));
    assert_eq!(f, vec![function(number()), function(string())]);
    assert!(!merge_into(&mut f, object(&["a"])));
    assert_eq!(f.len(), 2);

    let mut k: Vec<Type> = vec![number()];
    assert!(!merge_into(&mut k, number()));
    assert!(!merge_into(&mut k, object(&[])));
    assert_eq!(k, vec![number()]);
}

#[test]
fn generic_shapes_merge_only_with_their_like() {
    let g = |name: &str, mark: u32, key: &str| Type::Generic {
        type_params: vec![Id::new(name, Mark(mark))],
        body: Box::new(Type::Object {
            members: vec![member(key, Type::Param(Id::new(name, Mark(mark))))],
        }),
    };
    let mut c = vec![g("T", 1, "a")];
    assert!(merge_into(&mut c, g("U", 2, "b")));
    assert_eq!(
        c,
        vec![Type::Generic {
            type_params: vec![Id::new("T", Mark(1))],
            body: Box::new(Type::Object {
                members: vec![
                    member("a", Type::Param(Id::new("T", Mark(1)))),
                    member("b", Type::Param(Id::new("T", Mark(1)))),
                ],
            }),
        }]
    );
    let two = Type::Generic {
        type_params: vec![Id::new("A", Mark(3)), Id::new("B", Mark(3))],
        body: Box::new(object(&["c"])),
    };
    let alias = Type::Generic { type_params: vec![Id::new("A", Mark(3))], body: Box::new(number()) };
    assert!(!merge_into(&mut c, two));
    assert!(!merge_into(&mut c, alias.clone()));
    assert!(!merge_into(&mut c, object(&["d"])));
    assert_eq!(c.len(), 1);
    let mut d = vec![alias.clone()];
    assert!(!merge_into(&mut d, g("T", 1, "a")));
    assert_eq!(d, vec![alias]);
    assert_eq!(
        params_as_types(&vec![Id::new("A", Mark(3))]),
        vec![Type::Param(Id::new("A", Mark(3)))]
    );
}

// ---- substitution ----

#[test]
fn substitution_reaches_every_part_of_a_type() {
    let p = Mark(9);
    let t = || Type::Param(Id::new("T", p));
    let u = || Type::Param(Id::new("U", p));
    let params = vec![Id::new("T", p), Id::new("U", p), Id::new("T", p)];
    let args = vec![number(), string(), Type::Keyword(Keyword::Never)];
    assert_eq!(find_param(&params, &Id::new("T", p)), Some(0));
    assert_eq!(find_param(&params, &Id::new("U", p)), Some(1));
    assert_eq!(find_param(&params, &Id::new("T", Mark(1))), None);
    assert_eq!(find_param(&vec![], &Id::new("T", p)), None);
    let cases: Vec<(Type, Type)> = vec![
        (t(), number()),
        (u(), string()),
        (Type::Param(Id::new("T", Mark(1))), Type::Param(Id::new("T", Mark(1)))),
        (number(), number()),
        (Type::Lit(Lit::Bool(true)), Type::Lit(Lit::Bool(true))),
        (
            Type::Ref { id: Id::new("A", p), args: vec![t(), u()] },
            Type::Ref { id: Id::new("A", p), args: vec![number(), string()] },
        ),
        (
            Type::Object { members: vec![member("a", t())] },
            Type::Object { members: vec![member("a", number())] },
        ),
        (Type::Union(vec![t(), u()]), Type::Union(vec![number(), string()])),
        (Type::Intersection(vec![u(), t()]), Type::Intersection(vec![string(), number()])),
        (
            Type::Function { type_params: vec![Id::new("V", p)], params: vec![t()], ret: Box::new(u()) },
            Type::Function {
                type_params: vec![Id::new("V", p)],
                params: vec![number()],
                ret: Box::new(string()),
            },
        ),
        (
            Type::Conditional {
                check: Box::new(t()),
                extends: Box::new(u()),
                truthy: Box::new(t()),
                falsy: Box::new(u()),
            },
            Type::Conditional {
                check: Box::new(number()),
                extends: Box::new(string()),
                truthy: Box::new(number()),
                falsy: Box::new(string()),
            },
        ),
        (
            Type::Mapped { param: Id::new("K", p), constraint: Box::new(t()), value: Box::new(u()) },
            Type::Mapped {
                param: Id::new("K", p),
                constraint: Box::new(number()),
                value: Box::new(string()),
            },
        ),
        (
            Type::IndexedAccess { object: Box::new(t()), index: Box::new(u()) },
            Type::IndexedAccess { object: Box::new(number()), index: Box::new(string()) },
        ),
        (
            Type::Generic { type_params: vec![Id::new("W", p)], body: Box::new(t()) },
            Type::Generic { type_params: vec![Id::new("W", p)], body: Box::new(number()) },
        ),
    ];
    for (before, after) in &cases {
        assert_eq!(&before.substitute(&params, &args), after);
    }
    // A parameter without an argument stays.
    assert_eq!(u().substitute(&params, &vec![number()]), u());
    assert_eq!(substitute_all(&vec![t(), u()], &params, &args), vec![number(), string()]);
    assert_eq!(
        substitute_members(&vec![member("m", u())], &params, &args),
        vec![member("m", string())]
    );
}

#[test]
fn a_reference_stands_for_one_type() {
    assert_eq!(collapse(vec![number()]), number());
    assert_eq!(collapse(vec![]), Type::Intersection(vec![]));
    assert_eq!(
        collapse(vec![function(number()), function(string())]),
        Type::Intersection(vec![function(number()), function(string())])
    );
    let p = Mark(9);
    let declared =
        Type::Generic { type_params: vec![Id::new("T", p)], body: Box::new(Type::Param(Id::new("T", p))) };
    assert_eq!(instantiate(&declared, &vec![string()]), Some(string()));
    assert_eq!(instantiate(&declared, &vec![]), None);
    assert_eq!(instantiate(&declared, &vec![string(), string()]), None);
    assert_eq!(instantiate(&number(), &vec![string()]), None);
}

// ---- bindings and storage ----

#[test]
fn a_table_holds_one_entry_for_each_identifier() {
    let mut b = Bindings::new();
    let id = Id::new("a", Mark(1));
    assert!(b.get(&id).is_none());
    assert!(!b.contains(&id));
    b.set(id.clone(), Entry { resolved: vec![number()], deferred: vec![], in_progress: false });
    b.set(
        Id::new("a", Mark(2)),
        Entry { resolved: vec![string()], deferred: vec![], in_progress: false },
    );
    b.set(id.clone(), Entry { resolved: vec![], deferred: vec![string()], in_progress: true });
    let e = b.get(&id).unwrap();
    assert!(e.resolved.is_empty());
    assert_eq!(e.deferred, vec![string()]);
    assert!(e.in_progress);
    assert_eq!(b.get(&Id::new("a", Mark(2))).unwrap().resolved, vec![string()]);
    assert!(b.contains(&id));
    let copy = e.clone();
    assert_eq!(copy.deferred, vec![string()]);
}

#[test]
fn storage_keeps_what_it_was_made_with() {
    let parent = Storage::new(None, ModuleId::builtin(), Mark(0), FileName::Anon, true);
    let s = Storage::new(
        Some(&parent),
        ModuleId(4),
        Mark(9),
        FileName::Real("a/b.ts".to_string()),
        false,
    );
    assert_eq!(s.id, ModuleId(4));
    assert_eq!(s.top_level_mark, Mark(9));
    assert!(s.path.same(&FileName::Real("a/b.ts".to_string())));
    assert!(!s.is_dts);
    assert!(s.parent.unwrap().is_dts);
    assert!(s.parent.unwrap().id.is_builtin());
    assert!(!s.id.is_builtin());
    assert!(matches!(s.lookup(&Id::new("x", Mark(9))), Found::Missing));
}

#[test]
fn lookup_reports_a_resolution_in_progress() {
    let m = Mark(1);
    let mut s = Storage::new(None, ModuleId(1), m, FileName::Anon, false);
    s.register(Id::new("T", m), number());
    // Registered but unresolved: declared, with candidates that are not
    // final.
    assert!(matches!(s.lookup(&Id::new("T", m)), Found::Unresolved));
    // An entry that holds nothing declares nothing.
    s.info.set(Id::new("V", m), Entry { resolved: vec![], deferred: vec![], in_progress: false });
    assert!(matches!(s.lookup(&Id::new("V", m)), Found::Missing));
    s.info.set(
        Id::new("T", m),
        Entry { resolved: vec![], deferred: vec![number()], in_progress: true },
    );
    assert!(matches!(s.lookup(&Id::new("T", m)), Found::Cyclic));
    // The marker of an inner scope hides what the outer scope holds.
    let mut outer = Storage::new(None, ModuleId(1), m, FileName::Anon, false);
    assert!(outer.declare(Id::new("T", m), string()));
    let mut inner = Storage::new(Some(&outer), ModuleId(1), m, FileName::Anon, false);
    inner.info.set(
        Id::new("T", m),
        Entry { resolved: vec![], deferred: vec![number()], in_progress: true },
    );
    assert!(matches!(inner.lookup(&Id::new("T", m)), Found::Cyclic));
}

#[test]
fn declare_says_whether_the_candidate_merged() {
    let m = Mark(1);
    let mut s = Storage::new(None, ModuleId(1), m, FileName::Anon, false);
    assert!(s.declare(Id::new("T", m), number()));
    assert!(!s.declare(Id::new("T", m), string()));
    match s.lookup(&Id::new("T", m)) {
        Found::Candidates(c) => assert_eq!(c, vec![number()]),
        other => panic!("unexpected {:?}", other),
    }
    s.register(Id::new("T", m), string());
    s.register(Id::new("T", m), object(&["a"]));
    let e = s.info.get(&Id::new("T", m)).unwrap();
    assert_eq!(e.resolved, vec![number()]);
    assert_eq!(e.deferred, vec![string(), object(&["a"])]);
}

// ---- module identities ----

#[test]
fn every_call_gets_a_fresh_identity() {
    let mut g = ModuleIdGenerator::new();
    let p = FileName::Real("a.ts".to_string());
    let q = FileName::Custom("<virtual>".to_string());
    let first = g.generate(&p).unwrap();
    let second = g.generate(&p).unwrap();
    let third = g.generate(&q).unwrap();
    assert_eq!(first, (ModuleId(1), Mark(1)));
    assert_eq!(second, (ModuleId(2), Mark(2)));
    assert_eq!(third, (ModuleId(3), Mark(3)));
    assert!(!first.0.is_builtin());
    assert!(g.path(first.0).unwrap().same(&p));
    assert!(g.path(second.0).unwrap().same(&p));
    assert!(g.path(third.0).unwrap().same(&q));
    assert!(g.path(ModuleId::builtin()).is_none());
    assert!(g.path(ModuleId(4)).is_none());
    assert!(!p.same(&q));
    assert!(!FileName::Anon.same(&p));
    assert!(FileName::Anon.same(&FileName::Anon.clone()));
    assert!(!FileName::Real("x".to_string()).same(&FileName::Custom("x".to_string())));
}

// ---- libraries ----

#[test]
fn a_library_name_stands_for_the_library_and_its_bases() {
    assert_eq!(Lib::load("es5").unwrap(), vec![Lib::Es5]);
    assert_eq!(Lib::load("es2015").unwrap(), vec![Lib::Es2015, Lib::Es5]);
    assert_eq!(Lib::load("es6").unwrap(), vec![Lib::Es2015, Lib::Es5]);
    assert_eq!(Lib::load("es7").unwrap(), vec![Lib::Es2016, Lib::Es2015, Lib::Es5]);
    assert_eq!(
        Lib::load("esnext").unwrap(),
        vec![
            Lib::EsNext,
            Lib::Es2022,
            Lib::Es2021,
            Lib::Es2020,
            Lib::Es2019,
            Lib::Es2018,
            Lib::Es2017,
            Lib::Es2016,
            Lib::Es2015,
            Lib::Es5,
        ]
    );
    assert_eq!(Lib::load("dom").unwrap(), vec![Lib::Dom]);
    assert_eq!(Lib::load("dom.iterable").unwrap(), vec![Lib::DomIterable, Lib::Dom]);
    assert_eq!(Lib::load("webworker").unwrap(), vec![Lib::WebWorker]);
    assert_eq!(Lib::load("scripthost").unwrap(), vec![Lib::ScriptHost]);
    for (name, lib) in [
        ("es2016", Lib::Es2016),
        ("es2017", Lib::Es2017),
        ("es2018", Lib::Es2018),
        ("es2019", Lib::Es2019),
        ("es2020", Lib::Es2020),
        ("es2021", Lib::Es2021),
        ("es2022", Lib::Es2022),
    ] {
        assert_eq!(Lib::parse(name), Some(lib));
    }
}

#[test]
fn an_unknown_library_is_a_configuration_error() {
    match Lib::load("es4") {
        Err(ConfigError::UnknownLib(name)) => assert_eq!(name, "es4"),
        other => panic!("unexpected {:?}", other),
    }
    assert!(matches!(Lib::load(""), Err(ConfigError::UnknownLib(_))));
    assert!(matches!(Lib::load("ES5"), Err(ConfigError::UnknownLib(_))));
    assert_eq!(Lib::parse("nothing"), None);
}

#[test]
fn libraries_have_their_place_in_the_loading_order() {
    let all = Lib::all();
    assert_eq!(all.len(), 14);
    for (i, l) in all.iter().enumerate() {
        assert_eq!(l.code(), i);
        if let Some(b) = l.base() {
            assert!(b.code() < l.code());
        }
    }
    assert_eq!(Lib::Es5.base(), None);
    assert_eq!(Lib::Es2015.base(), Some(Lib::Es5));
    assert_eq!(Lib::DomIterable.base(), Some(Lib::Dom));
    assert_eq!(Lib::Dom.base(), None);
}

#[test]
fn normalizing_sorts_and_drops_repetitions() {
    let libs = vec![Lib::Dom, Lib::Es2015, Lib::Es5, Lib::Dom, Lib::Es2015];
    assert_eq!(normalize(&libs), vec![Lib::Es5, Lib::Es2015, Lib::Dom]);
    let other = vec![Lib::Es5, Lib::Dom, Lib::Es2015];
    assert_eq!(normalize(&libs), normalize(&other));
    assert_eq!(normalize(&vec![]), Vec::<Lib>::new());
    assert_eq!(normalize(&normalize(&libs)), normalize(&libs));
    assert_eq!(normalize(&Lib::all()), Lib::all());
    assert!(holds(&libs, Lib::Dom));
    assert!(!holds(&libs, Lib::WebWorker));
}

#[test]
fn a_list_of_names_selects_each_library_once() {
    let names = |ns: &[&str]| ns.iter().map(|n| n.to_string()).collect::<Vec<String>>();
    assert_eq!(load_all(&names(&["es5"])).unwrap(), vec![Lib::Es5]);
    assert_eq!(
        load_all(&names(&["dom", "es2016", "es2015", "dom"])).unwrap(),
        vec![Lib::Es5, Lib::Es2015, Lib::Es2016, Lib::Dom]
    );
    assert_eq!(
        load_all(&names(&["es2016", "dom"])).unwrap(),
        load_all(&names(&["dom", "es6", "es7"])).unwrap()
    );
    assert_eq!(load_all(&names(&[])).unwrap(), Vec::<Lib>::new());
    match load_all(&names(&["es5", "es1", "es2"])) {
        Err(ConfigError::UnknownLib(n)) => assert_eq!(n, "es1"),
        other => panic!("unexpected {:?}", other),
    }
}

#[test]
fn only_what_the_cache_lacks_is_to_be_parsed() {
    let mut cache = BuiltinCache::new();
    let wanted = vec![Lib::Dom, Lib::Es2015, Lib::Es5, Lib::Dom];
    assert_eq!(cache.missing(&wanted), vec![Lib::Es5, Lib::Es2015, Lib::Dom]);
    cache.store(Lib::Es2015, Module { body: vec![] });
    assert_eq!(cache.missing(&wanted), vec![Lib::Es5, Lib::Dom]);
    cache.store(Lib::Es5, Module { body: vec![] });
    cache.store(Lib::Dom, Module { body: vec![] });
    assert_eq!(cache.missing(&wanted), Vec::<Lib>::new());
    assert_eq!(cache.missing(&vec![Lib::WebWorker]), vec![Lib::WebWorker]);
}

fn es5_module(m: Mark) -> Module {
    Module {
        body: vec![
            decl("PropertyKey", m, Type::Union(vec![string(), number()])),
            decl("Key", m, reference("PropertyKey", m)),
            decl("Array", m, object(&["length"])),
        ],
    }
}

#[test]
fn the_cache_keeps_what_it_was_given_first() {
    let m = Mark(0);
    let mut cache = BuiltinCache::new();
    assert!(cache.get(Lib::Es5).is_none());
    assert!(cache.store(Lib::Es5, es5_module(m)));
    assert!(!cache.store(Lib::Es5, Module { body: vec![] }));
    assert_eq!(cache.get(Lib::Es5).unwrap().body.len(), 3);
    assert!(cache.get(Lib::Es2015).is_none());
    assert!(cache.store(Lib::ScriptHost, Module { body: vec![] }));
    assert_eq!(cache.get(Lib::ScriptHost).unwrap().body.len(), 0);
    assert_eq!(cache.get(Lib::Es5).unwrap().body.len(), 3);
}

fn global_type(env: &Env, name: &str) -> Option<Vec<Type>> {
    env.builtin.get(&Id::new(name, Mark(0))).map(|e| clone_types(&e.resolved))
}

#[test]
fn two_environments_share_the_same_builtins() {
    let m = Mark(0);
    let mut cache = BuiltinCache::new();
    cache.store(Lib::Es5, es5_module(m));
    cache.store(Lib::Es2015, Module { body: vec![decl("Array", m, object(&["includes"]))] });
    let libs = vec![Lib::Es5, Lib::Es2015];
    let strict = Rule { strict_null_checks: true, ..Rule::default() };
    let one = Env::simple(strict, EsVersion::Es5, ModuleConfig::CommonJs, &libs, &cache).unwrap();
    let two =
        Env::simple(Rule::default(), EsVersion::latest(), ModuleConfig::Plain, &libs, &cache)
            .unwrap();
    assert_eq!(one.rule, strict);
    assert_eq!(one.target, EsVersion::Es5);
    assert_eq!(one.module, ModuleConfig::CommonJs);
    assert_eq!(two.rule, Rule::default());
    for name in ["PropertyKey", "Key", "Array", "Missing"] {
        assert_eq!(global_type(&one, name), global_type(&two, name));
    }
    // The declarations were resolved and merged by identifier.
    assert_eq!(global_type(&one, "Key"), Some(vec![Type::Union(vec![string(), number()])]));
    assert_eq!(global_type(&one, "Array"), Some(vec![object(&["length", "includes"])]));
    assert_eq!(global_type(&one, "Missing"), None);
}

#[test]
fn the_language_level_selects_its_libraries() {
    assert_eq!(EsVersion::Es3.baseline(), Lib::Es5);
    assert_eq!(EsVersion::Es5.baseline(), Lib::Es5);
    assert_eq!(EsVersion::Es2015.baseline(), Lib::Es2015);
    assert_eq!(EsVersion::Es2016.baseline(), Lib::Es2016);
    assert_eq!(EsVersion::Es2017.baseline(), Lib::Es2017);
    assert_eq!(EsVersion::Es2018.baseline(), Lib::Es2018);
    assert_eq!(EsVersion::Es2019.baseline(), Lib::Es2019);
    assert_eq!(EsVersion::Es2020.baseline(), Lib::Es2020);
    assert_eq!(EsVersion::Es2021.baseline(), Lib::Es2021);
    assert_eq!(EsVersion::Es2022.baseline(), Lib::Es2022);
    assert_eq!(EsVersion::EsNext.baseline(), Lib::EsNext);
    assert_eq!(Lib::Es2016.bases(), vec![Lib::Es2016, Lib::Es2015, Lib::Es5]);
    assert_eq!(Lib::WebWorker.bases(), vec![Lib::WebWorker]);

    let m = Mark(0);
    let mut cache = BuiltinCache::new();
    cache.store(Lib::Es5, es5_module(m));
    let old = Env::for_target(Rule::default(), EsVersion::Es5, ModuleConfig::Plain, &cache);
    let old = old.unwrap();
    assert_eq!(old.target, EsVersion::Es5);
    assert_eq!(global_type(&old, "Array"), Some(vec![object(&["length"])]));
    // The next level needs a library that was not stored yet.
    let newer = Env::for_target(Rule::default(), EsVersion::Es2015, ModuleConfig::Plain, &cache);
    assert!(matches!(newer, Err(ConfigError::NotLoaded(Lib::Es2015))));
    cache.store(Lib::Es2015, Module { body: vec![decl("Array", m, object(&["includes"]))] });
    let newer = Env::for_target(Rule::default(), EsVersion::Es2015, ModuleConfig::Plain, &cache);
    assert_eq!(
        global_type(&newer.unwrap(), "Array"),
        Some(vec![object(&["length", "includes"])])
    );
}

#[test]
fn a_library_that_was_not_stored_is_a_configuration_error() {
    let mut cache = BuiltinCache::new();
    cache.store(Lib::Es5, Module { body: vec![] });
    let r = Env::simple(
        Rule::default(),
        EsVersion::latest(),
        ModuleConfig::Plain,
        &vec![Lib::Es5, Lib::Dom, Lib::WebWorker],
        &cache,
    );
    assert!(matches!(r, Err(ConfigError::NotLoaded(Lib::Dom))));
    let ok = Env::simple(Rule::default(), EsVersion::latest(), ModuleConfig::Plain, &vec![], &cache);
    assert!(ok.is_ok());
}

#[test]
fn the_defaults_are_relaxed() {
    let r = Rule::default();
    assert!(!r.strict_null_checks && !r.strict_function_types && !r.no_implicit_any);
    assert!(!r.no_implicit_this && !r.always_strict && !r.no_unused_locals);
    assert!(!r.no_unused_parameters && !r.use_define_property_for_class_fields);
    assert_eq!(EsVersion::latest(), EsVersion::EsNext);
}

// ---- loaders ----

struct OneModule;

impl Load for OneModule {
    fn resolve(&self, specifier: &str, from: &FileName) -> Option<Bindings> {
        if specifier == "./dep" && from.same(&FileName::Real("main.ts".to_string())) {
            let mut b = Bindings::new();
            b.set(
                Id::new("Exported", Mark(8)),
                Entry { resolved: vec![string()], deferred: vec![], in_progress: false },
            );
            b.set(
                Id::new("Busy", Mark(8)),
                Entry { resolved: vec![], deferred: vec![string()], in_progress: true },
            );
            Some(b)
        } else {
            None
        }
    }
}

fn import(local: &str, m: Mark, exported: &str, specifier: &str) -> Decl {
    Decl::Import {
        local: Id::new(local, m),
        exported: Id::new(exported, Mark(8)),
        specifier: specifier.to_string(),
    }
}

#[test]
fn an_import_binds_what_the_loader_finds() {
    let m = Mark(1);
    let env = Env {
        rule: Rule::default(),
        target: EsVersion::latest(),
        module: ModuleConfig::Es6,
        builtin: Bindings::new(),
    };
    let storage =
        Storage::new(None, ModuleId(1), m, FileName::Real("main.ts".to_string()), false);
    let loader = OneModule;
    let mut a = Analyzer::root(env, Config::default(), storage, &loader, None);
    a.visit(&Module {
        body: vec![
            decl("Uses", m, reference("Local", m)),
            import("Local", m, "Exported", "./dep"),
            import("Gone", m, "NotExported", "./dep"),
            import("Busy", m, "Busy", "./dep"),
            import("Elsewhere", m, "Exported", "./other"),
            import("Uses", m, "Exported", "./dep"),
        ],
    });
    assert_eq!(a.find_type(&Id::new("Local", m)), Ok(Some(vec![string()])));
    assert_eq!(a.find_type(&Id::new("Uses", m)), Ok(Some(vec![string()])));
    assert_eq!(a.find_type(&Id::new("Gone", m)), Ok(None));
    assert_eq!(a.find_type(&Id::new("Busy", m)), Ok(None));
    assert_eq!(a.find_type(&Id::new("Elsewhere", m)), Ok(None));
    assert_eq!(a.diagnostics, vec![Diagnostic::Redeclared(Id::new("Uses", m))]);
}

#[test]
fn an_answer_of_the_loader_is_bound_name_by_name() {
    let m = Mark(1);
    let storage =
        Storage::new(None, ModuleId(1), m, FileName::Real("main.ts".to_string()), false);
    let loader = OneModule;
    let mut a = Analyzer::root(bare_env(), Config::default(), storage, &loader, None);
    let target = loader.resolve("./dep", &FileName::Real("main.ts".to_string()));
    a.bind_import(Id::new("First", m), &Id::new("Exported", Mark(8)), target);
    a.bind_import(Id::new("Second", m), &Id::new("Exported", Mark(8)), None);
    a.import(Id::new("Third", m), &Id::new("Exported", Mark(8)), "./dep");
    a.import(Id::new("Fourth", m), &Id::new("Exported", Mark(8)), "./nowhere");
    a.import(Id::new("First", m), &Id::new("Exported", Mark(8)), "./dep");
    assert_eq!(a.find_type(&Id::new("First", m)), Ok(Some(vec![string()])));
    assert_eq!(a.find_type(&Id::new("Second", m)), Ok(None));
    assert_eq!(a.find_type(&Id::new("Third", m)), Ok(Some(vec![string()])));
    assert_eq!(a.find_type(&Id::new("Fourth", m)), Ok(None));
    assert_eq!(a.diagnostics, vec![Diagnostic::Redeclared(Id::new("First", m))]);
}

#[test]
fn an_entry_is_reported_as_a_lookup_finds_it() {
    let busy = Entry { resolved: vec![number()], deferred: vec![string()], in_progress: true };
    assert!(matches!(found_in(&busy), Found::Cyclic));
    let waits = Entry { resolved: vec![number()], deferred: vec![string()], in_progress: false };
    assert!(matches!(found_in(&waits), Found::Unresolved));
    let empty = Entry { resolved: vec![], deferred: vec![], in_progress: false };
    assert!(matches!(found_in(&empty), Found::Missing));
    let done = Entry { resolved: vec![number()], deferred: vec![], in_progress: false };
    match found_in(&done) {
        Found::Candidates(c) => assert_eq!(c, vec![number()]),
        other => panic!("unexpected {:?}", other),
    }
}

#[test]
fn without_a_loader_every_import_stays_undeclared() {
    let m = Mark(1);
    assert!(NoopLoader.resolve("./dep", &FileName::Real("main.ts".to_string())).is_none());
    let env = Env {
        rule: Rule::default(),
        target: EsVersion::latest(),
        module: ModuleConfig::Plain,
        builtin: Bindings::new(),
    };
    let storage =
        Storage::new(None, ModuleId(1), m, FileName::Real("main.ts".to_string()), false);
    let mut a = Analyzer::root(env, Config::default(), storage, &NoopLoader, None);
    a.visit(&Module {
        body: vec![import("Local", m, "Exported", "./dep"), decl("Uses", m, reference("Local", m))],
    });
    assert_eq!(a.find_type(&Id::new("Local", m)), Ok(None));
    assert_eq!(a.find_type(&Id::new("Uses", m)), Ok(Some(vec![Type::Keyword(Keyword::Any)])));
    assert_eq!(a.diagnostics, vec![Diagnostic::NameNotFound(Id::new("Local", m))]);
}

// ---- fixtures ----

#[test]
fn the_fixture_environment_is_strict_es5() {
    let mut cache = BuiltinCache::new();
    assert!(matches!(get_env(&cache), Err(ConfigError::NotLoaded(Lib::Es5))));
    cache.store(Lib::Es5, es5_module(Mark(0)));
    let env = get_env(&cache).unwrap();
    assert!(env.rule.strict_null_checks);
    assert!(env.rule.strict_function_types);
    assert_eq!(
        env.rule,
        Rule { strict_null_checks: true, strict_function_types: true, ..Rule::default() }
    );
    assert_eq!(env.target, EsVersion::EsNext);
    assert_eq!(env.module, ModuleConfig::Plain);
    assert_eq!(global_type(&env, "Array"), Some(vec![object(&["length"])]));
}

#[test]
fn the_source_of_a_pair_declares_t1_and_t2() {
    assert_eq!(pair_source("number", "A | B"), "type T1 = number; type T2 = A | B;");
    assert_eq!(pair_source("", ""), "type T1 = ; type T2 = ;");
}

fn bare_env() -> Env {
    Env {
        rule: Rule::default(),
        target: EsVersion::latest(),
        module: ModuleConfig::Plain,
        builtin: Bindings::new(),
    }
}

#[test]
fn a_pair_resolves_to_its_two_types() {
    let m = Mark(3);
    let module = Module {
        body: vec![decl("T1", m, reference("T2", m)), decl("T2", m, Type::Lit(Lit::Bool(true)))],
    };
    let (mut analyzer, t1, t2) = test_two(
        bare_env(),
        &module,
        ModuleId(3),
        m,
        FileName::Real("test.ts".to_string()),
        &NoopLoader,
    )
    .unwrap();
    assert_eq!(t1, Type::Lit(Lit::Bool(true)));
    assert_eq!(t2, Type::Lit(Lit::Bool(true)));
    assert_eq!(analyzer.storage.id, ModuleId(3));
    assert_eq!(analyzer.storage.top_level_mark, m);
    assert!(analyzer.diagnostics.is_empty());
    assert_eq!(analyzer.find_type(&Id::new("T1", m)), Ok(Some(vec![Type::Lit(Lit::Bool(true))])));
}

#[test]
fn a_pair_fails_on_the_first_name_that_gives_no_type() {
    let m = Mark(3);
    let run = |module: Module| {
        test_two(bare_env(), &module, ModuleId(3), m, FileName::Anon, &NoopLoader).map(|_| ())
    };
    assert_eq!(
        run(Module { body: vec![] }),
        Err(PairFailure::First(QueryFailure::Undeclared))
    );
    assert_eq!(
        run(Module { body: vec![decl("T1", m, number())] }),
        Err(PairFailure::Second(QueryFailure::Undeclared))
    );
    assert_eq!(
        run(Module { body: vec![decl("T1", Mark(4), number()), decl("T2", m, number())] }),
        Err(PairFailure::First(QueryFailure::Undeclared))
    );
    // A chain too long for the default depth, from T2 on, even with the
    // part of its tail that the traversal could resolve.
    let mut body = vec![decl("T1", m, number()), decl("T2", m, reference("A0", m))];
    for i in 0..400 {
        body.push(decl(&format!("A{}", i), m, reference(&format!("A{}", i + 1), m)));
    }
    assert_eq!(
        run(Module { body }),
        Err(PairFailure::Second(QueryFailure::Engine(EngineError::DepthExceeded)))
    );
}

struct EmptyExport;

impl Load for EmptyExport {
    fn resolve(&self, _specifier: &str, _from: &FileName) -> Option<Bindings> {
        let mut b = Bindings::new();
        b.set(
            Id::new("T1", Mark(8)),
            Entry { resolved: vec![], deferred: vec![], in_progress: false },
        );
        Some(b)
    }
}

#[test]
fn an_export_without_a_candidate_binds_nothing() {
    let m = Mark(3);
    let module = Module { body: vec![import("T1", m, "T1", "./dep"), decl("T2", m, number())] };
    let r = test_two(bare_env(), &module, ModuleId(3), m, FileName::Anon, &EmptyExport);
    assert_eq!(r.map(|_| ()), Err(PairFailure::First(QueryFailure::Undeclared)));
}

#[test]
fn an_answer_is_never_empty() {
    let m = Mark(1);
    let vacant = || Entry { resolved: vec![], deferred: vec![], in_progress: false };
    // Nothing in the built-in table, in the scope around, or in the module.
    let mut builtin = Bindings::new();
    builtin.set(Id::new("G", m), vacant());
    builtin.set(
        Id::new("W", m),
        Entry { resolved: vec![string()], deferred: vec![number()], in_progress: false },
    );
    let env = Env {
        rule: Rule::default(),
        target: EsVersion::latest(),
        module: ModuleConfig::Plain,
        builtin,
    };
    let mut outer = Storage::new(None, ModuleId(1), m, FileName::Anon, false);
    outer.info.set(Id::new("O", m), vacant());
    outer.register(Id::new("X", m), number());
    let mut inner = Storage::new(Some(&outer), ModuleId(1), m, FileName::Anon, false);
    inner.info.set(Id::new("L", m), vacant());
    let mut a = Analyzer::root(env, Config::default(), inner, &NoopLoader, None);
    for name in ["G", "O", "L"] {
        assert_eq!(a.find_type(&Id::new(name, m)), Ok(None));
        assert_eq!(a.expand(&reference(name, m)), Ok(Type::Keyword(Keyword::Any)));
    }
    assert_eq!(a.diagnostics.len(), 3);
    // A scope around the module has to be finished: a declaration that
    // still waits out there is a fault of the engine.
    for name in ["W", "X"] {
        assert_eq!(a.find_type(&Id::new(name, m)), Err(EngineError::InvariantViolated));
        assert_eq!(a.expand(&reference(name, m)), Err(EngineError::InvariantViolated));
    }
    a.visit(&Module { body: vec![decl("Uses", m, reference("X", m))] });
    assert_eq!(a.diagnostics.last(), Some(&Diagnostic::Internal(Id::new("Uses", m))));
}

#[test]
fn a_pair_hands_back_the_analyzer_of_its_module() {
    let m = Mark(3);
    let module = Module { body: vec![decl("T1", m, number()), decl("T2", m, string())] };
    let env = Env {
        rule: Rule { strict_null_checks: true, ..Rule::default() },
        target: EsVersion::Es2017,
        module: ModuleConfig::CommonJs,
        builtin: Bindings::new(),
    };
    let path = FileName::Real("pair.ts".to_string());
    let (a, _, _) = test_two(env, &module, ModuleId(7), m, path.clone(), &NoopLoader).unwrap();
    assert!(a.env.rule.strict_null_checks);
    assert_eq!(a.env.target, EsVersion::Es2017);
    assert_eq!(a.env.module, ModuleConfig::CommonJs);
    assert_eq!(a.config.max_depth, 256);
    assert_eq!(a.origin, None);
    assert_eq!(a.storage.id, ModuleId(7));
    assert_eq!(a.storage.top_level_mark, m);
    assert!(a.storage.path.same(&path));
    assert!(!a.storage.is_dts);
    assert!(a.storage.parent.is_none());
}

#[test]
fn a_query_leaves_the_environment_alone() {
    let m = Mark(1);
    let env = Env {
        rule: Rule { no_implicit_any: true, ..Rule::default() },
        target: EsVersion::Es2019,
        module: ModuleConfig::Umd,
        builtin: Bindings::new(),
    };
    let storage = Storage::new(None, ModuleId(1), m, FileName::Anon, false);
    let mut a = Analyzer::root(env, Config { max_depth: 9 }, storage, &NoopLoader, None);
    a.visit(&Module { body: vec![decl("A", m, reference("B", m)), decl("B", m, number())] });
    assert_eq!(a.find_type(&Id::new("A", m)), Ok(Some(vec![number()])));
    assert_eq!(a.env.rule, Rule { no_implicit_any: true, ..Rule::default() });
    assert_eq!(a.env.target, EsVersion::Es2019);
    assert_eq!(a.env.module, ModuleConfig::Umd);
    assert_eq!(a.config.max_depth, 9);
}

#[test]
fn markers_of_syntax_contexts() {
    let top = Mark(5);
    assert_eq!(mark_of(3, 3, top, 2), top);
    assert_eq!(mark_of(2, 3, top, 2), Mark(0));
    assert_eq!(mark_of(4, 3, top, 2), Mark(u32::MAX - 4));
    assert_eq!(mark_of(7, 3, top, 2), Mark(u32::MAX - 7));
    assert_eq!(mark_of(0, 3, top, 2), Mark(u32::MAX));
    // The top level decides where both contexts are the same.
    assert_eq!(mark_of(3, 3, top, 3), top);
    assert_eq!(mark_of(u32::MAX, 3, top, 2), Mark(0));
}

#[test]
fn identifiers_hash_by_text_and_marker() {
    let mut seen = std::collections::HashSet::new();
    assert!(seen.insert(Id::new("x", Mark(1))));
    assert!(seen.insert(Id::new("x", Mark(2))));
    assert!(seen.insert(Id::new("y", Mark(1))));
    assert!(!seen.insert(Id::new("x", Mark(1))));
    assert_eq!(seen.len(), 3);
    assert!(seen.contains(&Id::new("x", Mark(2))));
    assert!(!seen.contains(&Id::new("y", Mark(2))));
}

#[test]
fn type_parameters_are_told_apart_from_references() {
    let p = Mark(9);
    let m = Mark(1);
    let t = || reference("T", p);
    let k = || reference("K", p);
    let scope = vec![Id::new("T", p)];
    assert!(in_scope(&scope, &Id::new("T", p)));
    assert!(!in_scope(&scope, &Id::new("T", m)));
    assert!(!in_scope(&vec![], &Id::new("T", p)));
    assert_eq!(
        widened(&scope, &vec![Id::new("K", p)]),
        vec![Id::new("T", p), Id::new("K", p)]
    );
    let param = |n: &str| Type::Param(Id::new(n, p));
    let cases: Vec<(Type, Type)> = vec![
        (t(), param("T")),
        (k(), k()),
        (reference("T", m), reference("T", m)),
        (number(), number()),
        (Type::Lit(Lit::Bool(true)), Type::Lit(Lit::Bool(true))),
        (param("K"), param("K")),
        (
            Type::Ref { id: Id::new("T", p), args: vec![t()] },
            Type::Ref { id: Id::new("T", p), args: vec![param("T")] },
        ),
        (
            Type::Object { members: vec![member("a", t())] },
            Type::Object { members: vec![member("a", param("T"))] },
        ),
        (Type::Union(vec![t(), k()]), Type::Union(vec![param("T"), k()])),
        (Type::Intersection(vec![k(), t()]), Type::Intersection(vec![k(), param("T")])),
        (
            Type::Function { type_params: vec![Id::new("K", p)], params: vec![k()], ret: Box::new(t()) },
            Type::Function {
                type_params: vec![Id::new("K", p)],
                params: vec![param("K")],
                ret: Box::new(param("T")),
            },
        ),
        (
            Type::Conditional {
                check: Box::new(t()),
                extends: Box::new(k()),
                truthy: Box::new(t()),
                falsy: Box::new(k()),
            },
            Type::Conditional {
                check: Box::new(param("T")),
                extends: Box::new(k()),
                truthy: Box::new(param("T")),
                falsy: Box::new(k()),
            },
        ),
        (
            Type::Mapped { param: Id::new("K", p), constraint: Box::new(k()), value: Box::new(k()) },
            Type::Mapped {
                param: Id::new("K", p),
                constraint: Box::new(k()),
                value: Box::new(param("K")),
            },
        ),
        (
            Type::IndexedAccess { object: Box::new(t()), index: Box::new(k()) },
            Type::IndexedAccess { object: Box::new(param("T")), index: Box::new(k()) },
        ),
        (
            Type::Generic { type_params: vec![Id::new("K", p)], body: Box::new(Type::Union(vec![t(), k()])) },
            Type::Generic {
                type_params: vec![Id::new("K", p)],
                body: Box::new(Type::Union(vec![param("T"), param("K")])),
            },
        ),
    ];
    for (written, expected) in &cases {
        assert_eq!(&bind_params(written, &scope), expected);
    }
    assert_eq!(bind_all(&vec![t(), k()], &scope), vec![param("T"), k()]);
    assert_eq!(bind_members(&vec![member("m", t())], &scope), vec![member("m", param("T"))]);
}

#[test]
fn a_declaration_binds_its_own_parameters() {
    let p = Mark(9);
    let m = Mark(1);
    let plain = Decl::declare(Id::new("A", m), vec![], reference("T", p));
    match plain {
        Decl::Type { id, body } => {
            assert_eq!(id, Id::new("A", m));
            assert_eq!(body, reference("T", p));
        }
        other => panic!("unexpected {:?}", other),
    }
    let generic = Decl::declare(
        Id::new("Box", m),
        vec![Id::new("T", p)],
        Type::Object { members: vec![member("value", reference("T", p))] },
    );
    match &generic {
        Decl::Type { body, .. } => assert_eq!(
            body,
            &Type::Generic {
                type_params: vec![Id::new("T", p)],
                body: Box::new(Type::Object {
                    members: vec![member("value", Type::Param(Id::new("T", p)))],
                }),
            }
        ),
        other => panic!("unexpected {:?}", other),
    }
    // Declared so, the shape takes its argument.
    let storage = Storage::new(None, ModuleId(1), m, FileName::Anon, false);
    let mut a = Analyzer::root(bare_env(), Config::default(), storage, &NoopLoader, None);
    a.visit(&Module { body: vec![generic] });
    assert_eq!(
        a.expand(&Type::Ref { id: Id::new("Box", m), args: vec![string()] }),
        Ok(Type::Object { members: vec![member("value", string())] })
    );
}

#[test]
fn an_analysis_ends_with_its_bindings_and_its_diagnostics() {
    let m = Mark(1);
    let storage = Storage::new(None, ModuleId(1), m, FileName::Anon, false);
    let mut a = Analyzer::root(bare_env(), Config::default(), storage, &NoopLoader, None);
    a.visit(&Module { body: vec![decl("A", m, reference("B", m)), decl("C", m, string())] });
    let (storage, diagnostics) = a.finish();
    assert_eq!(diagnostics, vec![Diagnostic::NameNotFound(Id::new("B", m))]);
    assert_eq!(storage.id, ModuleId(1));
    match storage.lookup(&Id::new("C", m)) {
        Found::Candidates(c) => assert_eq!(c, vec![string()]),
        other => panic!("unexpected {:?}", other),
    }
    match storage.lookup(&Id::new("A", m)) {
        Found::Candidates(c) => assert_eq!(c, vec![Type::Keyword(Keyword::Any)]),
        other => panic!("unexpected {:?}", other),
    }
}

#[test]
fn copies_hold_what_the_originals_hold() {
    let m = Mark(1);
    let mut b = Bindings::new();
    b.set(Id::new("a", m), Entry { resolved: vec![number()], deferred: vec![], in_progress: false });
    b.set(Id::new("b", m), Entry { resolved: vec![], deferred: vec![string()], in_progress: true });
    let copy = b.clone();
    b.set(Id::new("a", m), Entry { resolved: vec![], deferred: vec![], in_progress: false });
    assert_eq!(copy.get(&Id::new("a", m)).unwrap().resolved, vec![number()]);
    assert_eq!(copy.get(&Id::new("b", m)).unwrap().deferred, vec![string()]);
    assert!(copy.get(&Id::new("b", m)).unwrap().in_progress);
    assert!(copy.get(&Id::new("c", m)).is_none());
    assert!(b.duplicate().get(&Id::new("a", m)).unwrap().resolved.is_empty());

    let env = Env {
        rule: Rule { no_implicit_any: true, ..Rule::default() },
        target: EsVersion::Es2019,
        module: ModuleConfig::Umd,
        builtin: copy,
    };
    let other = env.clone();
    assert_eq!(other.rule, env.rule);
    assert_eq!(other.target, EsVersion::Es2019);
    assert_eq!(other.module, ModuleConfig::Umd);
    assert_eq!(other.builtin.get(&Id::new("a", m)).unwrap().resolved, vec![number()]);

    let module = Module {
        body: vec![decl("A", m, object(&["x"])), import("L", m, "E", "./dep")],
    };
    let again = module.clone();
    assert_eq!(again.body.len(), 2);
    match (&again.body[0], &again.body[1]) {
        (Decl::Type { id, body }, Decl::Import { local, exported, specifier }) => {
            assert_eq!(id, &Id::new("A", m));
            assert_eq!(body, &object(&["x"]));
            assert_eq!(local, &Id::new("L", m));
            assert_eq!(exported, &Id::new("E", Mark(8)));
            assert_eq!(specifier, "./dep");
        }
        other => panic!("unexpected {:?}", other),
    }
}

#[test]
fn a_test_runs_on_a_fresh_tester() {
    let m = Mark(11);
    let (found, diagnostics) = run_test(bare_env(), m, |mut t| {
        assert_eq!(t.top_level_mark, Mark(11));
        // The module of a tester is one of its own: it does not pass for the
        // built-in module.
        assert!(!t.analyzer.storage.id.is_builtin());
        assert_eq!(t.analyzer.storage.id, ModuleId(1));
        assert_eq!(t.analyzer.origin, None);
        assert_eq!(t.analyzer.env.target, EsVersion::EsNext);
        assert_eq!(t.analyzer.env.module, ModuleConfig::Plain);
        assert!(t.analyzer.storage.path.same(&FileName::Real(String::new())));
        assert!(!t.analyzer.storage.is_dts);
        assert!(t.analyzer.storage.parent.is_none());
        assert_eq!(t.analyzer.config.max_depth, 256);
        let mark = t.top_level_mark;
        t.analyzer.visit(&Module {
            body: vec![decl("A", mark, number()), decl("B", mark, reference("C", mark))],
        });
        let found = t.analyzer.find_type(&Id::new("A", mark));
        (t, found)
    });
    assert_eq!(found, Ok(Some(vec![number()])));
    assert_eq!(diagnostics, vec![Diagnostic::NameNotFound(Id::new("C", m))]);
}
