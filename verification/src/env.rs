//! The environment: the configuration that every analysis of a run shares.
use vstd::prelude::*;
use crate::analyzer::{default_budget, Analyzer, AnalyzerView, Config, DEFAULT_MAX_DEPTH};
use crate::bindings::{Bindings, EntryView};
use crate::builtin::{
    first_unloaded, law_normalize_ignores_order, normalize, normalized, BuiltinCache,
    ConfigError, ConfigErrorView, Lib,
};
use crate::id::{IdView, Mark};
use crate::loader::{answer_views, lemma_noop_answers_nothing, NoopLoader};
use crate::module::DeclView;
use crate::module_id::{FileName, FileNameView, ModuleId};
use crate::resolve::{visited, DiagnosticView, Outer, State};
use crate::storage::Storage;

verus! {

/// The strictness rules. They are fixed when the environment is made.
#[derive(Clone, Copy, Debug, PartialEq, Eq, Structural)]
pub struct Rule {
    /// The absence of a value is not assignable to a type that is not
    /// optional.
    pub strict_null_checks: bool,
    /// Parameters of function types are compared by the strict rules.
    pub strict_function_types: bool,
    pub no_implicit_any: bool,
    pub no_implicit_this: bool,
    pub always_strict: bool,
    pub no_unused_locals: bool,
    pub no_unused_parameters: bool,
    pub use_define_property_for_class_fields: bool,
}

impl Default for Rule {
    fn default() -> (r: Rule)
        ensures
            r == Rule::relaxed(),
    {
        Rule {
            strict_null_checks: false,
            strict_function_types: false,
            no_implicit_any: false,
            no_implicit_this: false,
            always_strict: false,
            no_unused_locals: false,
            no_unused_parameters: false,
            use_define_property_for_class_fields: false,
        }
    }
}

impl Rule {
    /// The rules with every toggle off.
    pub open spec fn relaxed() -> Rule {
        Rule {
            strict_null_checks: false,
            strict_function_types: false,
            no_implicit_any: false,
            no_implicit_this: false,
            always_strict: false,
            no_unused_locals: false,
            no_unused_parameters: false,
            use_define_property_for_class_fields: false,
        }
    }
}

/// The language level that the analysed code is written for.
#[derive(Clone, Copy, Debug, PartialEq, Eq, Structural)]
pub enum EsVersion {
    Es3,
    Es5,
    Es2015,
    Es2016,
    Es2017,
    Es2018,
    Es2019,
    Es2020,
    Es2021,
    Es2022,
    EsNext,
}

impl EsVersion {
    /// The newest language level.
    pub fn latest() -> (v: EsVersion)
        ensures
            v == EsVersion::EsNext,
    {
        EsVersion::EsNext
    }

    /// The library that declares what the language level itself provides.
    /// The oldest level has no library of its own and shares that of the
    /// next.
    pub open spec fn baseline_spec(self) -> Lib {
        match self {
            EsVersion::Es3 => Lib::Es5,
            EsVersion::Es5 => Lib::Es5,
            EsVersion::Es2015 => Lib::Es2015,
            EsVersion::Es2016 => Lib::Es2016,
            EsVersion::Es2017 => Lib::Es2017,
            EsVersion::Es2018 => Lib::Es2018,
            EsVersion::Es2019 => Lib::Es2019,
            EsVersion::Es2020 => Lib::Es2020,
            EsVersion::Es2021 => Lib::Es2021,
            EsVersion::Es2022 => Lib::Es2022,
            EsVersion::EsNext => Lib::EsNext,
        }
    }

    /// The library that declares what the language level itself provides.
    pub fn baseline(self) -> (l: Lib)
        ensures
            l == self.baseline_spec(),
    {
        match self {
            EsVersion::Es3 => Lib::Es5,
            EsVersion::Es5 => Lib::Es5,
            EsVersion::Es2015 => Lib::Es2015,
            EsVersion::Es2016 => Lib::Es2016,
            EsVersion::Es2017 => Lib::Es2017,
            EsVersion::Es2018 => Lib::Es2018,
            EsVersion::Es2019 => Lib::Es2019,
            EsVersion::Es2020 => Lib::Es2020,
            EsVersion::Es2021 => Lib::Es2021,
            EsVersion::Es2022 => Lib::Es2022,
            EsVersion::EsNext => Lib::EsNext,
        }
    }
}

/// How import specifiers are read.
#[derive(Clone, Copy, Debug, PartialEq, Eq, Structural)]
pub enum ModuleConfig {
    /// No module system: import specifiers are left to the loader as they
    /// are written.
    Plain,
    CommonJs,
    Es6,
    Es2015,
    Es2020,
    EsNext,
    Amd,
    System,
    Umd,
}

/// The mathematical value of an [`Env`].
pub struct EnvView {
    pub rule: Rule,
    pub target: EsVersion,
    pub module: ModuleConfig,
    pub global: Map<IdView, EntryView>,
}

/// The configuration of a run together with the built-in declarations.
#[derive(Debug)]
pub struct Env {
    pub rule: Rule,
    pub target: EsVersion,
    pub module: ModuleConfig,
    pub builtin: Bindings,
}

impl View for Env {
    type V = EnvView;

    open spec fn view(&self) -> EnvView {
        EnvView { rule: self.rule, target: self.target, module: self.module, global: self.builtin@ }
    }
}

impl Clone for Env {
    fn clone(&self) -> (r: Env)
        ensures
            r@ == self@,
    {
        Env {
            rule: self.rule,
            target: self.target,
            module: self.module,
            builtin: self.builtin.clone(),
        }
    }
}

/// The state in which nothing is declared and nothing reported.
pub open spec fn blank() -> State {
    State { info: Map::empty(), diagnostics: Seq::empty() }
}

/// The answers of a loader that finds nothing, for `n` declarations.
pub open spec fn silent(n: nat) -> Seq<Option<Map<IdView, EntryView>>> {
    Seq::new(n, |i: int| None)
}

/// The state after the declarations of the libraries `libs[i..]` were
/// traversed one library after the other, as the cache holds them. The
/// built-in module has nothing around it, imports nothing, and resolves with
/// the default depth.
pub open spec fn loaded(cache: Map<Lib, Seq<DeclView>>, libs: Seq<Lib>, i: nat, st: State) -> State
    decreases libs.len() - i,
{
    if i >= libs.len() {
        st
    } else if !cache.contains_key(libs[i as int]) {
        loaded(cache, libs, i + 1, st)
    } else {
        loaded(
            cache,
            libs,
            i + 1,
            visited(
                silent(cache[libs[i as int]].len()),
                Outer { parent: None, global: Map::empty() },
                st,
                cache[libs[i as int]],
                default_budget(),
            ),
        )
    }
}

/// The built-in declarations that the libraries `libs` make up.
pub open spec fn global_of(cache: Map<Lib, Seq<DeclView>>, libs: Seq<Lib>) -> Map<
    IdView,
    EntryView,
> {
    loaded(cache, libs, 0, blank()).info
}

impl Env {
    /// An environment with the built-in declarations of `libs`, taken from
    /// `cache` and merged by identifier in the order of `libs`. A library
    /// that the cache does not hold is a configuration error. A built-in
    /// declaration whose resolution could not be finished within the default
    /// depth stays in the table as waiting: a query that reaches it fails as
    /// a fault of the engine and never answers with half a result.
    pub fn simple(
        rule: Rule,
        target: EsVersion,
        module: ModuleConfig,
        libs: &Vec<Lib>,
        cache: &BuiltinCache,
    ) -> (r: Result<Env, ConfigError>)
        ensures
            match first_unloaded(cache@, libs@, 0) {
                Some(l) => r.is_err() && r.unwrap_err()@ == ConfigErrorView::NotLoaded(l),
                None => r.is_ok() && r.unwrap()@ == (EnvView {
                    rule,
                    target,
                    module,
                    global: global_of(cache@, libs@),
                }),
            },
    {
        let mut i: usize = 0;
        while i < libs.len()
            invariant
                i <= libs.len(),
                first_unloaded(cache@, libs@, 0) == first_unloaded(cache@, libs@, i as nat),
            decreases libs.len() - i,
        {
            if cache.get(libs[i]).is_none() {
                return Err(ConfigError::NotLoaded(libs[i]));
            }
            i += 1;
        }
        let storage = Storage::new(None, ModuleId::builtin(), Mark(0), FileName::Anon, true);
        let bare = Env { rule, target, module, builtin: Bindings::new() };
        let mut analyzer = Analyzer::root(bare, Config::default(), storage, &NoopLoader, None);
        assert(analyzer@.state.diagnostics =~= Seq::<DiagnosticView>::empty());
        assert(analyzer@.state == blank());
        let ghost start = analyzer@;
        let mut j: usize = 0;
        while j < libs.len()
            invariant
                j <= libs.len(),
                start.loader == NoopLoader,
                start.path == FileNameView::Anon,
                start.outer == (Outer { parent: None, global: Map::empty() }),
                start.max_depth == DEFAULT_MAX_DEPTH,
                analyzer@ == (AnalyzerView { state: analyzer@.state, ..start }),
                loaded(cache@, libs@, 0, blank()) == loaded(
                    cache@,
                    libs@,
                    j as nat,
                    analyzer@.state,
                ),
            decreases libs.len() - j,
        {
            match cache.get(libs[j]) {
                Some(m) => {
                    let answers = analyzer.visit(m);
                    proof {
                        assert forall|k: int| 0 <= k < m@.len() implies answers@[k].is_none() by {
                            match m@[k] {
                                DeclView::Type { .. } => {},
                                DeclView::Import { specifier, .. } => {
                                    lemma_noop_answers_nothing(
                                        FileNameView::Anon,
                                        specifier,
                                        answers@[k],
                                    );
                                },
                            }
                        }
                        assert(answer_views(answers@) =~= silent(m@.len()));
                    }
                },
                None => {},
            }
            j += 1;
        }
        let Analyzer { storage, .. } = analyzer;
        let Storage { info, .. } = storage;
        Ok(Env { rule, target, module, builtin: info })
    }
}

impl Env {
    /// An environment with the built-in declarations that the language
    /// level `target` selects: its baseline library and everything that it
    /// builds on.
    pub fn for_target(rule: Rule, target: EsVersion, module: ModuleConfig, cache: &BuiltinCache) -> (r:
        Result<Env, ConfigError>)
        ensures
            match first_unloaded(cache@, normalized(target.baseline_spec().with_bases()), 0) {
                Some(l) => r.is_err() && r.unwrap_err()@ == ConfigErrorView::NotLoaded(l),
                None => r.is_ok() && r.unwrap()@ == (EnvView {
                    rule,
                    target,
                    module,
                    global: global_of(cache@, normalized(target.baseline_spec().with_bases())),
                }),
            },
    {
        let libs = normalize(&target.baseline().bases());
        Env::simple(rule, target, module, &libs, cache)
    }
}

/// The built-in declarations are shared. They are a function of the cache
/// and the libraries alone: two environments that were made from the same
/// cache and the same libraries hold the same declarations, whatever rules,
/// language level and module system they were made with. And once the
/// lists are normalized, neither the order in which the libraries were named
/// matters nor how often each was named.
pub proof fn law_builtins_are_shared(
    e1: EnvView,
    e2: EnvView,
    cache: Map<Lib, Seq<DeclView>>,
    a: Seq<Lib>,
    b: Seq<Lib>,
)
    requires
        forall|l: Lib| a.contains(l) == b.contains(l),
        e1.global == global_of(cache, normalized(a)),
        e2.global == global_of(cache, normalized(b)),
    ensures
        e1.global == e2.global,
{
    law_normalize_ignores_order(a, b);
}

} // verus!
