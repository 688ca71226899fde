//! The analyzer: it registers the declarations of a module, resolves them on
//! demand and keeps what it found.
use vstd::prelude::*;
use crate::bindings::{Bindings, Entry};
use crate::env::{Env, EsVersion, ModuleConfig, Rule};
use crate::id::{Id, Mark};
use crate::loader::{answer_view, answer_views, asked, Load};
use crate::merge::merge_into;
use crate::module::{Decl, DeclView, Module};
use crate::module_id::{FileNameView, ModuleId};
use crate::resolve;
use crate::resolve::{DiagnosticView, EngineError, Outer, State};
use crate::storage::{found_in, Found, FoundView, Storage};
use crate::ty::{clone_types, id_views, views, Keyword, Type, TypeView};

verus! {

/// Something that is wrong with the analysed program. Diagnostics are
/// collected; they never stop the analysis.
#[derive(Debug)]
pub enum Diagnostic {
    /// A reference to a name that no scope declares.
    NameNotFound(Id),
    /// A declaration that refers to itself with nothing in between that
    /// would allow it.
    IllegalCycle(Id),
    /// A declaration that cannot merge with the earlier ones of its name.
    Redeclared(Id),
    /// A declaration whose resolution nested deeper than the configured
    /// maximum.
    ResourceExhausted(Id),
    /// A declaration that was marked as being resolved before its
    /// resolution began.
    Internal(Id),
}

impl View for Diagnostic {
    type V = DiagnosticView;

    open spec fn view(&self) -> DiagnosticView {
        match self {
            Diagnostic::NameNotFound(id) => DiagnosticView::NameNotFound(id@),
            Diagnostic::IllegalCycle(id) => DiagnosticView::IllegalCycle(id@),
            Diagnostic::Redeclared(id) => DiagnosticView::Redeclared(id@),
            Diagnostic::ResourceExhausted(id) => DiagnosticView::ResourceExhausted(id@),
            Diagnostic::Internal(id) => DiagnosticView::Internal(id@),
        }
    }
}

impl Diagnostic {
    /// Whether two diagnostics say the same of the same identifier.
    pub fn same(&self, other: &Diagnostic) -> (r: bool)
        ensures
            r == (self@ == other@),
    {
        match (self, other) {
            (Diagnostic::NameNotFound(a), Diagnostic::NameNotFound(b)) => a.same(b),
            (Diagnostic::IllegalCycle(a), Diagnostic::IllegalCycle(b)) => a.same(b),
            (Diagnostic::Redeclared(a), Diagnostic::Redeclared(b)) => a.same(b),
            (Diagnostic::ResourceExhausted(a), Diagnostic::ResourceExhausted(b)) => a.same(b),
            (Diagnostic::Internal(a), Diagnostic::Internal(b)) => a.same(b),
            _ => false,
        }
    }
}

impl PartialEq for Diagnostic {
    fn eq(&self, other: &Diagnostic) -> (r: bool) {
        self.same(other)
    }
}

impl Eq for Diagnostic {}

impl vstd::std_specs::cmp::PartialEqSpecImpl for Diagnostic {
    open spec fn obeys_eq_spec() -> bool {
        true
    }

    open spec fn eq_spec(&self, other: &Diagnostic) -> bool {
        self@ == other@
    }
}

/// The values of a sequence of diagnostics.
pub open spec fn diagnostic_views(ds: Seq<Diagnostic>) -> Seq<DiagnosticView> {
    Seq::new(ds.len(), |i: int| ds[i]@)
}

/// How deep resolution may nest where nothing else is configured.
pub const DEFAULT_MAX_DEPTH: u32 = 256;

/// The levels of nesting that a query may use with the default depth: one
/// for the query itself and one for each level below it.
pub open spec fn default_budget() -> nat {
    (DEFAULT_MAX_DEPTH + 1) as nat
}

/// What an analyzer is configured with.
#[derive(Clone, Copy, Debug)]
pub struct Config {
    /// How deep resolution may nest.
    pub max_depth: u32,
}

impl Default for Config {
    fn default() -> (c: Config)
        ensures
            c.max_depth == DEFAULT_MAX_DEPTH,
    {
        Config { max_depth: DEFAULT_MAX_DEPTH }
    }
}

/// The mathematical value of an [`Analyzer`].
pub struct AnalyzerView<L> {
    pub rule: Rule,
    pub target: EsVersion,
    pub module: ModuleConfig,
    pub loader: L,
    pub id: ModuleId,
    pub top_level_mark: Mark,
    pub path: FileNameView,
    pub is_dts: bool,
    /// The analyzer on whose behalf this one works, if any.
    pub origin: Option<ModuleId>,
    pub max_depth: nat,
    pub outer: Outer,
    pub state: State,
}

/// The traversal and resolution engine of one module.
pub struct Analyzer<'a, L: Load> {
    pub env: Env,
    pub config: Config,
    pub storage: Storage<'a>,
    pub loader: &'a L,
    pub origin: Option<ModuleId>,
    pub diagnostics: Vec<Diagnostic>,
}

impl<'a, L: Load> View for Analyzer<'a, L> {
    type V = AnalyzerView<L>;

    open spec fn view(&self) -> AnalyzerView<L> {
        AnalyzerView {
            rule: self.env.rule,
            target: self.env.target,
            module: self.env.module,
            loader: *self.loader,
            id: self.storage.id,
            top_level_mark: self.storage.top_level_mark,
            path: self.storage.path@,
            is_dts: self.storage.is_dts,
            origin: self.origin,
            max_depth: self.config.max_depth as nat,
            outer: Outer { parent: self.storage@.parent, global: self.env.builtin@ },
            state: State {
                info: self.storage.info@,
                diagnostics: diagnostic_views(self.diagnostics@),
            },
        }
    }
}

/// Whether `answers` holds, for each import of `module`, something that
/// `loader` may answer for it, and `None` at every other position.
pub open spec fn answers_fit<L: Load>(
    loader: L,
    from: FileNameView,
    module: Seq<DeclView>,
    answers: Seq<Option<Bindings>>,
) -> bool {
    &&& answers.len() == module.len()
    &&& forall|i: int|
        0 <= i < module.len() ==> match #[trigger] module[i] {
            DeclView::Type { .. } => answers[i].is_none(),
            DeclView::Import { specifier, .. } => asked(loader, from, specifier, answers[i]),
        }
}

/// The value of the result of resolving an identifier.
pub open spec fn found_result(r: Result<Found, EngineError>) -> Result<FoundView, EngineError> {
    match r {
        Ok(f) => Ok(f@),
        Err(e) => Err(e),
    }
}

/// The value of the result of resolving one type.
pub open spec fn type_result(r: Result<Type, EngineError>) -> Result<TypeView, EngineError> {
    match r {
        Ok(t) => Ok(t@),
        Err(e) => Err(e),
    }
}

/// The value of the result of resolving several types.
pub open spec fn types_result(r: Result<Vec<Type>, EngineError>) -> Result<
    Seq<TypeView>,
    EngineError,
> {
    match r {
        Ok(ts) => Ok(views(ts@)),
        Err(e) => Err(e),
    }
}

/// The value of the result of a query.
pub open spec fn query_result(r: Result<Option<Vec<Type>>, EngineError>) -> Result<
    Option<Seq<TypeView>>,
    EngineError,
> {
    match r {
        Ok(Some(ts)) => Ok(Some(views(ts@))),
        Ok(None) => Ok(None),
        Err(e) => Err(e),
    }
}

/// The result `x` with `p` put in front of the types it holds.
pub open spec fn prefixed(p: Seq<TypeView>, x: (State, Result<Seq<TypeView>, EngineError>)) -> (
    State,
    Result<Seq<TypeView>, EngineError>,
) {
    match x.1 {
        Ok(rest) => (x.0, Ok(p + rest)),
        Err(e) => (x.0, Err(e)),
    }
}

proof fn lemma_prefixed_step(
    p: Seq<TypeView>,
    t: TypeView,
    x: (State, Result<Seq<TypeView>, EngineError>),
)
    ensures
        prefixed(p, prefixed(seq![t], x)) == prefixed(p.push(t), x),
{
    match x.1 {
        Ok(rest) => {
            assert(p + (seq![t] + rest) =~= p.push(t) + rest);
        },
        Err(e) => {},
    }
}

proof fn lemma_prefixed_empty(x: (State, Result<Seq<TypeView>, EngineError>))
    ensures
        prefixed(Seq::empty(), x) == x,
{
    match x.1 {
        Ok(rest) => {
            assert(Seq::<TypeView>::empty() + rest =~= rest);
        },
        Err(e) => {},
    }
}

/// The one type that a reference to an identifier with the candidates `c`
/// stands for.
pub fn collapse(c: Vec<Type>) -> (t: Type)
    ensures
        t@ == resolve::collapse(views(c@)),
{
    let mut c = c;
    if c.len() == 1 {
        let ghost before = c@;
        match c.pop() {
            Some(t) => {
                assert(t == before[0]);
                t
            },
            None => Type::Keyword(Keyword::Any),
        }
    } else {
        Type::Intersection(c)
    }
}

/// What the generic declaration `declared` stands for with the arguments
/// `args`, if it is generic and has as many parameters.
pub fn instantiate(declared: &Type, args: &Vec<Type>) -> (r: Option<Type>)
    ensures
        match resolve::instance(declared@, views(args@)) {
            Some(i) => r.is_some() && r.unwrap()@ == i,
            None => r.is_none(),
        },
{
    match declared {
        Type::Generic { type_params, body } => {
            assert(id_views(type_params@).len() == type_params.len());
            assert(views(args@).len() == args.len());
            if type_params.len() == args.len() {
                Some((**body).substitute(type_params, args))
            } else {
                None
            }
        },
        _ => None,
    }
}

impl<'a, L: Load> Analyzer<'a, L> {
    /// An analyzer for the module whose bindings `storage` holds. `parent`
    /// is the analyzer on whose behalf the new one works, if there is one.
    /// The scopes around the module and the built-in declarations of `env`
    /// are only read, so they are expected to be finished: a declaration
    /// that still waits in one of them makes the queries that reach it fail
    /// with `InvariantViolated`.
    pub fn root(
        env: Env,
        config: Config,
        storage: Storage<'a>,
        loader: &'a L,
        parent: Option<&Analyzer<'a, L>>,
    ) -> (a: Analyzer<'a, L>)
        ensures
            a.env == env,
            a.config == config,
            a.storage == storage,
            a.loader == loader,
            a.origin == match parent {
                Some(p) => Some(p.storage.id),
                None => None,
            },
            a.diagnostics@ == Seq::<Diagnostic>::empty(),
    {
        let origin = match parent {
            Some(p) => Some(p.storage.id),
            None => None,
        };
        Analyzer { env, config, storage, loader, origin, diagnostics: Vec::new() }
    }

    /// Ends the analysis: hands back the bindings of the module together
    /// with everything that was reported.
    pub fn finish(self) -> (r: (Storage<'a>, Vec<Diagnostic>))
        ensures
            r.0 == self.storage,
            r.1 == self.diagnostics,
    {
        let Analyzer { storage, diagnostics, .. } = self;
        (storage, diagnostics)
    }

    /// The type or types that `id` stands for: at least one where the
    /// answer is `Some`. `Ok(None)` says that no scope declares `id`. An
    /// error says that the engine could not finish: the resolution nested
    /// deeper than the configured maximum, or `id` was marked as being
    /// resolved before the query began, or a scope around the module holds a
    /// declaration that still waits. Whatever was resolved on the way is
    /// kept, so that a second query is answered from the table.
    pub fn find_type(&mut self, id: &Id) -> (r: Result<Option<Vec<Type>>, EngineError>)
        ensures
            final(self)@ == (AnalyzerView {
                state: resolve::find_type_spec(
                    old(self)@.outer,
                    old(self)@.state,
                    id@,
                    old(self)@.max_depth + 1,
                ).0,
                ..old(self)@
            }),
            query_result(r) == resolve::find_type_spec(
                old(self)@.outer,
                old(self)@.state,
                id@,
                old(self)@.max_depth + 1,
            ).1,
            match r {
                Ok(Some(c)) => c.len() > 0,
                _ => true,
            },
    {
        proof {
            resolve::lemma_candidates_are_some(
                self@.outer,
                self@.state,
                id@,
                (self@.max_depth + 1) as nat,
            );
        }
        match self.resolve_id(id, 0) {
            Err(e) => Err(e),
            Ok(Found::Missing) => Ok(None),
            Ok(Found::Cyclic) => Err(EngineError::InvariantViolated),
            Ok(Found::Unresolved) => Err(EngineError::InvariantViolated),
            Ok(Found::Candidates(c)) => {
                assert(views(c@).len() == c.len());
                Ok(Some(c))
            },
        }
    }

    /// Resolves the type `t` in the scope of this module: the references and
    /// the operands of unions and intersections at the top of `t` are
    /// replaced by what they stand for. What lies behind a boundary of `t`
    /// (the members of an object shape, the parts of a function signature)
    /// stays as it is, and is resolved by a call of its own when it is
    /// needed.
    pub fn expand(&mut self, t: &Type) -> (r: Result<Type, EngineError>)
        ensures
            final(self)@ == (AnalyzerView {
                state: resolve::resolve_type(
                    old(self)@.outer,
                    old(self)@.state,
                    t@,
                    old(self)@.max_depth + 1,
                ).0,
                ..old(self)@
            }),
            type_result(r) == resolve::resolve_type(
                old(self)@.outer,
                old(self)@.state,
                t@,
                old(self)@.max_depth + 1,
            ).1,
    {
        self.resolve_type(t, 0)
    }

    /// Adds the resolved candidate `t` for `id`. A candidate that cannot
    /// merge with the earlier ones is dropped and reported.
    pub fn declare(&mut self, id: Id, t: Type)
        ensures
            final(self)@ == (AnalyzerView {
                state: resolve::declare_in(old(self)@.state, id@, t@),
                ..old(self)@
            }),
    {
        let name = id.clone();
        if !self.storage.declare(id, t) {
            self.report(Diagnostic::Redeclared(name));
        }
    }

    /// Registers `body` as a declaration of `id`, to be resolved when `id`
    /// is first asked for.
    pub fn register(&mut self, id: Id, body: Type)
        ensures
            final(self)@ == (AnalyzerView {
                state: resolve::register_in(old(self)@.state, id@, body@),
                ..old(self)@
            }),
    {
        self.storage.register(id, body);
    }

    /// Binds `local` to what the module with the bindings `target` exports
    /// as `exported`. Where there is no such module, or the module has no
    /// finished candidate for the name, `local` stays undeclared. Where
    /// `local` is bound already, the import is reported as a redeclaration.
    pub fn bind_import(&mut self, local: Id, exported: &Id, target: Option<Bindings>)
        ensures
            final(self)@ == (AnalyzerView {
                state: resolve::import_in(
                    old(self)@.state,
                    local@,
                    exported@,
                    answer_view(target),
                ),
                ..old(self)@
            }),
    {
        let candidates = match target {
            None => {
                return ;
            },
            Some(bindings) => match bindings.get(exported) {
                None => {
                    return ;
                },
                Some(e) => match found_in(e) {
                    Found::Candidates(c) => c,
                    _ => {
                        return ;
                    },
                },
            },
        };
        if self.storage.info.contains(&local) {
            self.report(Diagnostic::Redeclared(local));
        } else {
            let cleared: Vec<Type> = Vec::new();
            assert(views(cleared@) =~= Seq::<TypeView>::empty());
            self.storage.info.set(
                local,
                Entry { resolved: candidates, deferred: cleared, in_progress: false },
            );
        }
    }

    /// Asks the loader for the module that `specifier` names and binds
    /// `local` to what that module exports as `exported`. Whatever the
    /// loader answers, the import is bound as [`Analyzer::bind_import`]
    /// binds that answer.
    pub fn import(&mut self, local: Id, exported: &Id, specifier: &str) -> (found: Ghost<
        Option<Bindings>,
    >)
        ensures
            asked(old(self)@.loader, old(self)@.path, specifier@, found@),
            final(self)@ == (AnalyzerView {
                state: resolve::import_in(
                    old(self)@.state,
                    local@,
                    exported@,
                    answer_view(found@),
                ),
                ..old(self)@
            }),
    {
        let target = self.loader.resolve(specifier, &self.storage.path);
        let ghost answer = target;
        assert(call_ensures(L::resolve, (self.loader, specifier, &self.storage.path), answer));
        self.bind_import(local, exported, target);
        Ghost(answer)
    }

    /// Traverses a module. A first pass enters every declared name and
    /// binds every import, a second resolves every declared type in source
    /// order. A resolution that the engine cannot finish is reported, and
    /// the traversal goes on with the next declaration. The result names
    /// what the loader answered for each import; the positions of the other
    /// declarations hold `None`.
    #[verifier::rlimit(60)]
    pub fn visit(&mut self, module: &Module) -> (answers: Ghost<Seq<Option<Bindings>>>)
        ensures
            answers_fit(old(self)@.loader, old(self)@.path, module@, answers@),
            final(self)@ == (AnalyzerView {
                state: resolve::visited(
                    answer_views(answers@),
                    old(self)@.outer,
                    old(self)@.state,
                    module@,
                    old(self)@.max_depth + 1,
                ),
                ..old(self)@
            }),
    {
        let ghost o = self@.outer;
        let ghost s0 = self@.state;
        let ghost dv = module@;
        let ghost b = self@.max_depth + 1;
        let ghost mut answers: Seq<Option<Bindings>> = Seq::empty();
        let mut i: usize = 0;
        while i < module.body.len()
            invariant
                i <= module.body.len(),
                dv == module@,
                s0 == old(self)@.state,
                self@ == (AnalyzerView { state: self@.state, ..old(self)@ }),
                answers.len() == i,
                forall|k: int|
                    0 <= k < i ==> match #[trigger] dv[k] {
                        DeclView::Type { .. } => answers[k].is_none(),
                        DeclView::Import { specifier, .. } => asked(
                            old(self)@.loader,
                            old(self)@.path,
                            specifier,
                            answers[k],
                        ),
                    },
                self@.state == resolve::registered(answer_views(answers), s0, dv, i as nat),
            decreases module.body.len() - i,
        {
            assert(dv[i as int] == module.body[i as int]@);
            let ghost earlier = answers;
            match &module.body[i] {
                Decl::Type { id, body } => {
                    self.register(id.clone(), body.clone());
                    proof {
                        answers = answers.push(None);
                    }
                },
                Decl::Import { local, exported, specifier } => {
                    let found = self.import(local.clone(), exported, specifier.as_str());
                    proof {
                        answers = answers.push(found@);
                    }
                },
            }
            proof {
                assert forall|k: int| 0 <= k < i implies resolve::answer_at(
                    answer_views(earlier),
                    k,
                ) == resolve::answer_at(answer_views(answers), k) by {
                    assert(answers[k] == earlier[k]);
                }
                resolve::lemma_registered_reads_prefix(
                    answer_views(earlier),
                    answer_views(answers),
                    s0,
                    dv,
                    i as nat,
                );
                assert(resolve::answer_at(answer_views(answers), i as int) == answer_view(
                    answers[i as int],
                ));
            }
            i += 1;
        }
        let ghost s1 = self@.state;
        let mut j: usize = 0;
        while j < module.body.len()
            invariant
                j <= module.body.len(),
                dv == module@,
                o == old(self)@.outer,
                b == old(self)@.max_depth + 1,
                self@ == (AnalyzerView { state: self@.state, ..old(self)@ }),
                resolve::resolved_each(o, s1, dv, 0, b) == resolve::resolved_each(
                    o,
                    self@.state,
                    dv,
                    j as nat,
                    b,
                ),
            decreases module.body.len() - j,
        {
            assert(dv[j as int] == module.body[j as int]@);
            match &module.body[j] {
                Decl::Type { id, body } => {
                    match self.find_type(id) {
                        Ok(_) => {},
                        Err(EngineError::DepthExceeded) => {
                            self.report(Diagnostic::ResourceExhausted(id.clone()));
                        },
                        Err(EngineError::InvariantViolated) => {
                            self.report(Diagnostic::Internal(id.clone()));
                        },
                    }
                },
                Decl::Import { .. } => {},
            }
            j += 1;
        }
        Ghost(answers)
    }

    /// The levels of nesting that a resolution step at `depth` may still
    /// use.
    pub open spec fn budget(&self, depth: u64) -> nat {
        (self.config.max_depth + 1 - depth) as nat
    }

    fn lookup_outer(&self, id: &Id) -> (r: Found)
        ensures
            r@ == resolve::outer_lookup(self@.outer, id@),
    {
        let via_parent = match self.storage.parent {
            Some(p) => p.lookup(id),
            None => Found::Missing,
        };
        match via_parent {
            Found::Missing => match self.env.builtin.get(id) {
                Some(e) => found_in(e),
                None => Found::Missing,
            },
            other => other,
        }
    }

    fn report(&mut self, d: Diagnostic)
        ensures
            final(self)@ == (AnalyzerView { state: resolve::report(old(self)@.state, d@), ..old(self)@ }),
    {
        let ghost before = diagnostic_views(self.diagnostics@);
        let ghost dv = d@;
        self.diagnostics.push(d);
        assert(diagnostic_views(self.diagnostics@) =~= before.push(dv));
    }

    fn settle(&mut self, id: &Id, candidates: Vec<Type>, ts: &Vec<Type>) -> (r: Vec<Type>)
        ensures
            final(self)@ == (AnalyzerView {
                state: State {
                    diagnostics: resolve::settle(
                        views(candidates@),
                        old(self)@.state.diagnostics,
                        id@,
                        views(ts@),
                        0,
                    ).1,
                    ..old(self)@.state
                },
                ..old(self)@
            }),
            views(r@) == resolve::settle(
                views(candidates@),
                old(self)@.state.diagnostics,
                id@,
                views(ts@),
                0,
            ).0,
    {
        let ghost c0 = views(candidates@);
        let ghost d0 = self@.state.diagnostics;
        let ghost tv = views(ts@);
        let mut candidates = candidates;
        let mut i: usize = 0;
        while i < ts.len()
            invariant
                i <= ts.len(),
                tv == views(ts@),
                self@ == (AnalyzerView {
                    state: State { diagnostics: self@.state.diagnostics, ..old(self)@.state },
                    ..old(self)@
                }),
                resolve::settle(c0, d0, id@, tv, 0) == resolve::settle(
                    views(candidates@),
                    self@.state.diagnostics,
                    id@,
                    tv,
                    i as nat,
                ),
            decreases ts.len() - i,
        {
            let accepted = merge_into(&mut candidates, ts[i].clone());
            if !accepted {
                self.report(Diagnostic::Redeclared(id.clone()));
            }
            i += 1;
        }
        candidates
    }

    fn resolve_type(&mut self, t: &Type, depth: u64) -> (r: Result<Type, EngineError>)
        requires
            depth <= old(self).config.max_depth + 1,
        ensures
            final(self)@ == (AnalyzerView {
                state: resolve::resolve_type(
                    old(self)@.outer,
                    old(self)@.state,
                    t@,
                    old(self).budget(depth),
                ).0,
                ..old(self)@
            }),
            type_result(r) == resolve::resolve_type(
                old(self)@.outer,
                old(self)@.state,
                t@,
                old(self).budget(depth),
            ).1,
        decreases old(self).config.max_depth + 1 - depth, 0int,
    {
        if depth > self.config.max_depth as u64 {
            return Err(EngineError::DepthExceeded);
        }
        match t {
            Type::Ref { id, args } => {
                assert(views(args@).len() == args.len());
                match self.resolve_id(id, depth + 1) {
                    Err(e) => Err(e),
                    Ok(Found::Missing) => {
                        self.report(Diagnostic::NameNotFound(id.clone()));
                        Ok(Type::Keyword(Keyword::Any))
                    },
                    Ok(Found::Cyclic) => {
                        self.report(Diagnostic::IllegalCycle(id.clone()));
                        Ok(Type::Keyword(Keyword::Any))
                    },
                    Ok(Found::Unresolved) => Err(EngineError::InvariantViolated),
                    Ok(Found::Candidates(c)) => {
                        let declared = collapse(c);
                        if args.len() == 0 {
                            Ok(declared)
                        } else {
                            match instantiate(&declared, args) {
                                Some(i) => self.resolve_type(&i, depth + 1),
                                None => Ok(t.clone()),
                            }
                        }
                    },
                }
            },
            Type::Union(ts) => match self.resolve_all(ts, depth + 1) {
                Err(e) => Err(e),
                Ok(rs) => Ok(Type::Union(rs)),
            },
            Type::Intersection(ts) => match self.resolve_all(ts, depth + 1) {
                Err(e) => Err(e),
                Ok(rs) => Ok(Type::Intersection(rs)),
            },
            _ => Ok(t.clone()),
        }
    }

    fn resolve_all(&mut self, ts: &Vec<Type>, depth: u64) -> (r: Result<Vec<Type>, EngineError>)
        requires
            depth <= old(self).config.max_depth + 1,
        ensures
            final(self)@ == (AnalyzerView {
                state: resolve::resolve_all(
                    old(self)@.outer,
                    old(self)@.state,
                    views(ts@),
                    0,
                    old(self).budget(depth),
                ).0,
                ..old(self)@
            }),
            types_result(r) == resolve::resolve_all(
                old(self)@.outer,
                old(self)@.state,
                views(ts@),
                0,
                old(self).budget(depth),
            ).1,
        decreases old(self).config.max_depth + 1 - depth, 1int,
    {
        let ghost o = self@.outer;
        let ghost s0 = self@.state;
        let ghost tv = views(ts@);
        let ghost b = self.budget(depth);
        let mut out: Vec<Type> = Vec::new();
        let mut i: usize = 0;
        proof {
            lemma_prefixed_empty(resolve::resolve_all(o, s0, tv, 0, b));
            assert(views(out@) =~= Seq::<TypeView>::empty());
        }
        while i < ts.len()
            invariant
                i <= ts.len(),
                tv == views(ts@),
                depth <= self.config.max_depth + 1,
                b == self.budget(depth),
                self.config.max_depth == old(self).config.max_depth,
                self@ == (AnalyzerView { state: self@.state, ..old(self)@ }),
                o == old(self)@.outer,
                s0 == old(self)@.state,
                b == old(self).budget(depth),
                resolve::resolve_all(o, s0, tv, 0, b) == prefixed(
                    views(out@),
                    resolve::resolve_all(o, self@.state, tv, i as nat, b),
                ),
            decreases ts.len() - i,
        {
            let ghost cur = self@.state;
            let ghost done = views(out@);
            assert(tv[i as int] == ts[i as int]@);
            match self.resolve_type(&ts[i], depth) {
                Err(e) => {
                    return Err(e);
                },
                Ok(t) => {
                    proof {
                        lemma_prefixed_step(
                            done,
                            t@,
                            resolve::resolve_all(o, self@.state, tv, (i + 1) as nat, b),
                        );
                    }
                    out.push(t);
                    assert(views(out@) =~= done.push(t@));
                },
            }
            i += 1;
        }
        assert(views(out@) + Seq::<TypeView>::empty() =~= views(out@));
        Ok(out)
    }

    fn resolve_id(&mut self, id: &Id, depth: u64) -> (r: Result<Found, EngineError>)
        requires
            depth <= old(self).config.max_depth + 1,
        ensures
            final(self)@ == (AnalyzerView {
                state: resolve::resolve_id(
                    old(self)@.outer,
                    old(self)@.state,
                    id@,
                    old(self).budget(depth),
                ).0,
                ..old(self)@
            }),
            found_result(r) == resolve::resolve_id(
                old(self)@.outer,
                old(self)@.state,
                id@,
                old(self).budget(depth),
            ).1,
        decreases old(self).config.max_depth + 1 - depth, 0int,
    {
        if depth > self.config.max_depth as u64 {
            return Err(EngineError::DepthExceeded);
        }
        let entry = match self.storage.info.get(id) {
            Some(e) => e.clone(),
            None => {
                return match self.lookup_outer(id) {
                    Found::Unresolved => Err(EngineError::InvariantViolated),
                    found => Ok(found),
                };
            },
        };
        assert(views(entry.deferred@).len() == entry.deferred.len());
        if entry.in_progress || entry.deferred.len() == 0 {
            return Ok(found_in(&entry));
        }
        let Entry { resolved, deferred, in_progress: _ } = entry;
        self.storage.info.set(
            id.clone(),
            Entry {
                resolved: clone_types(&resolved),
                deferred: clone_types(&deferred),
                in_progress: true,
            },
        );
        match self.resolve_all(&deferred, depth + 1) {
            Err(e) => {
                self.storage.info.set(id.clone(), Entry { resolved, deferred, in_progress: false });
                Err(e)
            },
            Ok(ts) => {
                let candidates = self.settle(id, resolved, &ts);
                let kept = clone_types(&candidates);
                let cleared: Vec<Type> = Vec::new();
                assert(views(cleared@) =~= Seq::<TypeView>::empty());
                self.storage.info.set(
                    id.clone(),
                    Entry { resolved: kept, deferred: cleared, in_progress: false },
                );
                Ok(Found::Candidates(candidates))
            },
        }
    }
}

} // verus!
