//! Fixtures for trying the analyzer on a single file.
use vstd::prelude::*;
use vstd::string::*;
use crate::analyzer::{
    answers_fit, default_budget, query_result, Analyzer, AnalyzerView, Config, Diagnostic,
    DEFAULT_MAX_DEPTH,
};
use crate::bindings::{Bindings, EntryView};
use crate::builtin::{
    first_unknown, first_unloaded, gathered, load_all, name_views, normalized, BuiltinCache,
    ConfigError, ConfigErrorView, Lib,
};
use crate::env::{blank, global_of, Env, EnvView, EsVersion, ModuleConfig, Rule};
use crate::id::{Id, IdView, Mark};
use crate::loader::{answer_views, Load, NoopLoader};
use crate::module::{DeclView, Module};
use crate::module_id::{issued, FileName, FileNameView, ModuleId, ModuleIdGenerator};
use crate::resolve::{find_type_spec, visited, DiagnosticView, EngineError, Outer, State};
use crate::storage::Storage;
use crate::ty::{Type, TypeView};

verus! {

/// The rules that the fixtures check with: the two strict toggles on,
/// everything else off.
pub open spec fn strict_rule() -> Rule {
    Rule { strict_null_checks: true, strict_function_types: true, ..Rule::relaxed() }
}

/// The environment of the fixtures: the baseline library with the strict
/// rules, the newest language level and no module system.
pub fn get_env(cache: &BuiltinCache) -> (r: Result<Env, ConfigError>)
    ensures
        match first_unloaded(cache@, normalized(Lib::Es5.with_bases()), 0) {
            Some(l) => r.is_err() && r.unwrap_err()@ == ConfigErrorView::NotLoaded(l),
            None => r.is_ok() && r.unwrap()@ == (EnvView {
                rule: strict_rule(),
                target: EsVersion::EsNext,
                module: ModuleConfig::Plain,
                global: global_of(cache@, normalized(Lib::Es5.with_bases())),
            }),
        },
{
    let mut names: Vec<String> = Vec::new();
    names.push("es5".to_owned());
    proof {
        let nv = name_views(names@);
        assert(nv[0] == "es5"@);
        reveal_with_fuel(first_unknown, 2);
        reveal_with_fuel(gathered, 2);
        assert(first_unknown(nv, 0).is_none());
        assert(gathered(nv, 1) =~= Lib::Es5.with_bases());
    }
    let libs = match load_all(&names) {
        Ok(l) => l,
        Err(e) => {
            return Err(e);
        },
    };
    let relaxed = Rule::default();
    let rule = Rule { strict_null_checks: true, strict_function_types: true, ..relaxed };
    Env::simple(rule, EsVersion::latest(), ModuleConfig::Plain, &libs, cache)
}

/// The source text that declares `left` as `T1` and `right` as `T2`.
pub fn pair_source(left: &str, right: &str) -> (s: String)
    ensures
        s@ == "type T1 = "@ + left@ + "; type T2 = "@ + right@ + ";"@,
{
    let mut s = String::from_str("type T1 = ");
    s.append(left);
    s.append("; type T2 = ");
    s.append(right);
    s.append(";");
    s
}

/// Why a queried name gave no type.
#[derive(Clone, Copy, Debug, PartialEq, Eq, Structural)]
pub enum QueryFailure {
    /// The engine could not finish the resolution.
    Engine(EngineError),
    /// No scope declares the name.
    Undeclared,
}

/// Which of the two names of a pair gave no type, and why.
#[derive(Clone, Copy, Debug, PartialEq, Eq, Structural)]
pub enum PairFailure {
    First(QueryFailure),
    Second(QueryFailure),
}

/// The first candidate that a query answered with. An answer holds at
/// least one.
pub open spec fn first_candidate(r: Result<Option<Seq<TypeView>>, EngineError>) -> Result<
    TypeView,
    QueryFailure,
> {
    match r {
        Err(e) => Err(QueryFailure::Engine(e)),
        Ok(None) => Err(QueryFailure::Undeclared),
        Ok(Some(c)) => Ok(c[0]),
    }
}

fn first_of(r: Result<Option<Vec<Type>>, EngineError>) -> (t: Result<Type, QueryFailure>)
    requires
        match r {
            Ok(Some(c)) => c.len() > 0,
            _ => true,
        },
    ensures
        match first_candidate(query_result(r)) {
            Ok(v) => t.is_ok() && t.unwrap()@ == v,
            Err(f) => t == Err::<Type, QueryFailure>(f),
        },
{
    match r {
        Err(e) => Err(QueryFailure::Engine(e)),
        Ok(None) => Err(QueryFailure::Undeclared),
        Ok(Some(c)) => Ok(c[0].clone()),
    }
}

/// The identifier `name` at the top level of the module marked `mark`.
pub open spec fn top_level(name: Seq<char>, mark: Mark) -> IdView {
    IdView { name, mark }
}

/// What the analysis of a pair comes to, given what the loader answered
/// for the imports of the module: the state at the end, and the two types or
/// the failure. The module is traversed first; then `T1` is queried, then
/// `T2`. The first of the two that gives no type decides the failure.
pub open spec fn pair_outcome(
    answers: Seq<Option<Map<IdView, EntryView>>>,
    global: Map<IdView, EntryView>,
    module: Seq<DeclView>,
    mark: Mark,
) -> (State, Result<(TypeView, TypeView), PairFailure>) {
    let o = Outer { parent: None, global };
    let s1 = visited(answers, o, blank(), module, default_budget());
    let (s2, r1) = find_type_spec(o, s1, top_level("T1"@, mark), default_budget());
    let (s3, r2) = find_type_spec(o, s2, top_level("T2"@, mark), default_budget());
    match first_candidate(r1) {
        Err(f) => (s2, Err(PairFailure::First(f))),
        Ok(t1) => match first_candidate(r2) {
            Err(f) => (s3, Err(PairFailure::Second(f))),
            Ok(t2) => (s3, Ok((t1, t2))),
        },
    }
}

/// Analyses a module that declares the types `T1` and `T2` at its top
/// level, with the default depth and nothing around the module but the
/// built-in declarations of `env`. Hands back the analyzer together with
/// what the two names resolved to, or says which of them gave no type. The
/// analyzer is the one that was made for the module, with the environment,
/// the loader, the identity, the marker and the path that were given, and in
/// the state that the traversal and the two queries left.
pub fn test_two<'a, L: Load>(
    env: Env,
    module: &Module,
    id: ModuleId,
    top_level_mark: Mark,
    path: FileName,
    loader: &'a L,
) -> (r: Result<(Analyzer<'a, L>, Type, Type), PairFailure>)
    ensures
        exists|answers: Seq<Option<Bindings>>|
            #![trigger answer_views(answers)]
            {
                &&& answers_fit(*loader, path@, module@, answers)
                &&& match pair_outcome(
                    answer_views(answers),
                    env.builtin@,
                    module@,
                    top_level_mark,
                ).1 {
                    Err(f) => r == Err::<(Analyzer<'a, L>, Type, Type), PairFailure>(f),
                    Ok((t1, t2)) => r.is_ok() && r.unwrap().1@ == t1 && r.unwrap().2@ == t2
                        && r.unwrap().0@ == (AnalyzerView {
                        rule: env.rule,
                        target: env.target,
                        module: env.module,
                        loader: *loader,
                        id,
                        top_level_mark,
                        path: path@,
                        is_dts: false,
                        origin: None,
                        max_depth: DEFAULT_MAX_DEPTH as nat,
                        outer: Outer { parent: None, global: env.builtin@ },
                        state: pair_outcome(
                            answer_views(answers),
                            env.builtin@,
                            module@,
                            top_level_mark,
                        ).0,
                    }),
                }
            },
{
    let storage = Storage::new(None, id, top_level_mark, path, false);
    let mut analyzer = Analyzer::root(env, Config::default(), storage, loader, None);
    assert(analyzer@.state.diagnostics =~= Seq::<DiagnosticView>::empty());
    let answers = analyzer.visit(module);
    let t1 = match first_of(analyzer.find_type(&Id::new("T1", top_level_mark))) {
        Ok(t) => t,
        Err(f) => {
            return Err(PairFailure::First(f));
        },
    };
    let t2 = match first_of(analyzer.find_type(&Id::new("T2", top_level_mark))) {
        Ok(t) => t,
        Err(f) => {
            return Err(PairFailure::Second(f));
        },
    };
    Ok((analyzer, t1, t2))
}

/// A single-file tester: an analyzer over an empty module, together with
/// the marker of that module's top level. The module has the identity that
/// a fresh generator hands out first, which is not that of the built-in
/// module.
pub struct Tester<'a> {
    pub analyzer: Analyzer<'a, NoopLoader>,
    pub top_level_mark: Mark,
}

/// Whether `t` is the tester that a test starts from: a module of its own,
/// with nothing declared, nothing reported, no scope around it but the
/// built-in declarations of `env`, the rules, the language level and the
/// module system of `env`, the default depth, and no module to import from.
pub open spec fn fresh_tester(t: Tester, env: EnvView, top_level_mark: Mark) -> bool {
    &&& t.top_level_mark == top_level_mark
    &&& t.analyzer@.rule == env.rule
    &&& t.analyzer@.target == env.target
    &&& t.analyzer@.module == env.module
    &&& t.analyzer@.loader == NoopLoader
    &&& t.analyzer@.id == issued(0).0
    &&& t.analyzer@.top_level_mark == top_level_mark
    &&& t.analyzer@.path == FileNameView::Real(Seq::empty())
    &&& !t.analyzer@.is_dts
    &&& t.analyzer@.origin.is_none()
    &&& t.analyzer@.max_depth == DEFAULT_MAX_DEPTH
    &&& t.analyzer@.outer == (Outer { parent: None, global: env.global })
    &&& t.analyzer@.state == blank()
}

/// Runs `op` on a fresh tester and hands back what `op` returned together
/// with everything that the analyzer reported meanwhile.
pub fn run_test<'a, F, Ret>(env: Env, top_level_mark: Mark, op: F) -> (r: (Ret, Vec<Diagnostic>))
    where F: FnOnce(Tester<'a>) -> (Tester<'a>, Ret)
    requires
        forall|t: Tester<'a>| fresh_tester(t, env@, top_level_mark) ==> op.requires((t,)),
    ensures
        exists|before: Tester<'a>, after: Tester<'a>|
            fresh_tester(before, env@, top_level_mark) && op.ensures((before,), (after, r.0))
                && r.1 == after.analyzer.diagnostics,
{
    let ghost shared = env@;
    let path = FileName::Real(String::new());
    let mut generator = ModuleIdGenerator::new();
    let identity = generator.generate(&path);
    let storage = Storage::new(None, identity.unwrap().0, top_level_mark, path, false);
    let analyzer = Analyzer::root(env, Config::default(), storage, &NoopLoader, None);
    assert(analyzer@.state.diagnostics =~= Seq::<DiagnosticView>::empty());
    let tester = Tester { analyzer, top_level_mark };
    assert(fresh_tester(tester, shared, top_level_mark));
    let ghost before = tester;
    let (after, ret) = op(tester);
    let ghost done = after;
    let Tester { analyzer, .. } = after;
    let Analyzer { diagnostics, .. } = analyzer;
    let r = (ret, diagnostics);
    assert(op.ensures((before,), (done, r.0)));
    r
}

} // verus!
