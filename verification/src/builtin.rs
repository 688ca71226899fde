//! The built-in libraries: their names, what each one pulls in, and the
//! cache that holds the declarations of each one once it has been parsed.
use vstd::prelude::*;
use crate::module::{DeclView, Module};

verus! {

/// A named set of ambient declarations.
#[derive(Clone, Copy, Debug, PartialEq, Eq, Structural, Hash)]
pub enum Lib {
    Es5,
    Es2015,
    Es2016,
    Es2017,
    Es2018,
    Es2019,
    Es2020,
    Es2021,
    Es2022,
    EsNext,
    Dom,
    DomIterable,
    WebWorker,
    ScriptHost,
}

/// The mathematical value of a [`ConfigError`].
pub enum ConfigErrorView {
    UnknownLib(Seq<char>),
    NotLoaded(Lib),
}

/// A fault in how a run was set up. It ends the run before any module is
/// analysed.
#[derive(Debug)]
pub enum ConfigError {
    /// No library has this name.
    UnknownLib(String),
    /// The declarations of this library were asked for before they had been
    /// stored in the cache.
    NotLoaded(Lib),
}

impl View for ConfigError {
    type V = ConfigErrorView;

    open spec fn view(&self) -> ConfigErrorView {
        match self {
            ConfigError::UnknownLib(n) => ConfigErrorView::UnknownLib(n@),
            ConfigError::NotLoaded(l) => ConfigErrorView::NotLoaded(*l),
        }
    }
}

/// The number of libraries.
pub const LIB_COUNT: usize = 14;

/// Every library, in the order of their codes.
pub open spec fn all_libs() -> Seq<Lib> {
    seq![
        Lib::Es5,
        Lib::Es2015,
        Lib::Es2016,
        Lib::Es2017,
        Lib::Es2018,
        Lib::Es2019,
        Lib::Es2020,
        Lib::Es2021,
        Lib::Es2022,
        Lib::EsNext,
        Lib::Dom,
        Lib::DomIterable,
        Lib::WebWorker,
        Lib::ScriptHost,
    ]
}

fn is_named(name: &str, literal: &str) -> (r: bool)
    ensures
        r == (name@ == literal@),
{
    name.to_owned() == literal.to_owned()
}

impl Lib {
    /// The position of the library in the order in which libraries are
    /// loaded.
    pub open spec fn code_spec(self) -> nat {
        match self {
            Lib::Es5 => 0,
            Lib::Es2015 => 1,
            Lib::Es2016 => 2,
            Lib::Es2017 => 3,
            Lib::Es2018 => 4,
            Lib::Es2019 => 5,
            Lib::Es2020 => 6,
            Lib::Es2021 => 7,
            Lib::Es2022 => 8,
            Lib::EsNext => 9,
            Lib::Dom => 10,
            Lib::DomIterable => 11,
            Lib::WebWorker => 12,
            Lib::ScriptHost => 13,
        }
    }

    /// The position of the library in the order in which libraries are
    /// loaded.
    pub fn code(self) -> (c: usize)
        ensures
            c == self.code_spec(),
            c < LIB_COUNT,
            all_libs()[c as int] == self,
    {
        match self {
            Lib::Es5 => 0,
            Lib::Es2015 => 1,
            Lib::Es2016 => 2,
            Lib::Es2017 => 3,
            Lib::Es2018 => 4,
            Lib::Es2019 => 5,
            Lib::Es2020 => 6,
            Lib::Es2021 => 7,
            Lib::Es2022 => 8,
            Lib::EsNext => 9,
            Lib::Dom => 10,
            Lib::DomIterable => 11,
            Lib::WebWorker => 12,
            Lib::ScriptHost => 13,
        }
    }

    /// Every library, in the order of their codes.
    pub fn all() -> (v: Vec<Lib>)
        ensures
            v@ == all_libs(),
    {
        let v = vec![
            Lib::Es5,
            Lib::Es2015,
            Lib::Es2016,
            Lib::Es2017,
            Lib::Es2018,
            Lib::Es2019,
            Lib::Es2020,
            Lib::Es2021,
            Lib::Es2022,
            Lib::EsNext,
            Lib::Dom,
            Lib::DomIterable,
            Lib::WebWorker,
            Lib::ScriptHost,
        ];
        assert(v@ =~= all_libs());
        v
    }

    /// The library that goes by `name`, if there is one.
    pub open spec fn named(name: Seq<char>) -> Option<Lib> {
        if name == "es5"@ {
            Some(Lib::Es5)
        } else if name == "es2015"@ || name == "es6"@ {
            Some(Lib::Es2015)
        } else if name == "es2016"@ || name == "es7"@ {
            Some(Lib::Es2016)
        } else if name == "es2017"@ {
            Some(Lib::Es2017)
        } else if name == "es2018"@ {
            Some(Lib::Es2018)
        } else if name == "es2019"@ {
            Some(Lib::Es2019)
        } else if name == "es2020"@ {
            Some(Lib::Es2020)
        } else if name == "es2021"@ {
            Some(Lib::Es2021)
        } else if name == "es2022"@ {
            Some(Lib::Es2022)
        } else if name == "esnext"@ {
            Some(Lib::EsNext)
        } else if name == "dom"@ {
            Some(Lib::Dom)
        } else if name == "dom.iterable"@ {
            Some(Lib::DomIterable)
        } else if name == "webworker"@ {
            Some(Lib::WebWorker)
        } else if name == "scripthost"@ {
            Some(Lib::ScriptHost)
        } else {
            None
        }
    }

    /// The library that goes by `name`, if there is one.
    pub fn parse(name: &str) -> (r: Option<Lib>)
        ensures
            r == Lib::named(name@),
    {
        if is_named(name, "es5") {
            Some(Lib::Es5)
        } else if is_named(name, "es2015") || is_named(name, "es6") {
            Some(Lib::Es2015)
        } else if is_named(name, "es2016") || is_named(name, "es7") {
            Some(Lib::Es2016)
        } else if is_named(name, "es2017") {
            Some(Lib::Es2017)
        } else if is_named(name, "es2018") {
            Some(Lib::Es2018)
        } else if is_named(name, "es2019") {
            Some(Lib::Es2019)
        } else if is_named(name, "es2020") {
            Some(Lib::Es2020)
        } else if is_named(name, "es2021") {
            Some(Lib::Es2021)
        } else if is_named(name, "es2022") {
            Some(Lib::Es2022)
        } else if is_named(name, "esnext") {
            Some(Lib::EsNext)
        } else if is_named(name, "dom") {
            Some(Lib::Dom)
        } else if is_named(name, "dom.iterable") {
            Some(Lib::DomIterable)
        } else if is_named(name, "webworker") {
            Some(Lib::WebWorker)
        } else if is_named(name, "scripthost") {
            Some(Lib::ScriptHost)
        } else {
            None
        }
    }

    /// The library that this one builds on, if any.
    pub open spec fn base_spec(self) -> Option<Lib> {
        match self {
            Lib::Es2015 => Some(Lib::Es5),
            Lib::Es2016 => Some(Lib::Es2015),
            Lib::Es2017 => Some(Lib::Es2016),
            Lib::Es2018 => Some(Lib::Es2017),
            Lib::Es2019 => Some(Lib::Es2018),
            Lib::Es2020 => Some(Lib::Es2019),
            Lib::Es2021 => Some(Lib::Es2020),
            Lib::Es2022 => Some(Lib::Es2021),
            Lib::EsNext => Some(Lib::Es2022),
            Lib::DomIterable => Some(Lib::Dom),
            _ => None,
        }
    }

    /// The library that this one builds on, if any.
    pub fn base(self) -> (r: Option<Lib>)
        ensures
            r == self.base_spec(),
            r.is_some() ==> r.unwrap().code_spec() < self.code_spec(),
    {
        match self {
            Lib::Es2015 => Some(Lib::Es5),
            Lib::Es2016 => Some(Lib::Es2015),
            Lib::Es2017 => Some(Lib::Es2016),
            Lib::Es2018 => Some(Lib::Es2017),
            Lib::Es2019 => Some(Lib::Es2018),
            Lib::Es2020 => Some(Lib::Es2019),
            Lib::Es2021 => Some(Lib::Es2020),
            Lib::Es2022 => Some(Lib::Es2021),
            Lib::EsNext => Some(Lib::Es2022),
            Lib::DomIterable => Some(Lib::Dom),
            _ => None,
        }
    }

    /// The library followed by everything that it builds on, nearest first.
    pub open spec fn with_bases(self) -> Seq<Lib>
        decreases self.code_spec(),
    {
        match self.base_spec() {
            Some(b) => seq![self] + b.with_bases(),
            None => seq![self],
        }
    }

    /// The library followed by everything that it builds on, nearest first.
    pub fn bases(self) -> (r: Vec<Lib>)
        ensures
            r@ == self.with_bases(),
    {
        let mut out: Vec<Lib> = Vec::new();
        out.push(self);
        let mut cur = self;
        loop
            invariant
                self.with_bases() == out@.drop_last() + cur.with_bases(),
                out@.len() >= 1,
                out@.last() == cur,
            decreases cur.code_spec(),
        {
            match cur.base() {
                Some(b) => {
                    assert(out@.drop_last() + (seq![cur] + b.with_bases()) =~= out@
                        + b.with_bases());
                    out.push(b);
                    assert(out@.drop_last() + b.with_bases() =~= out@.drop_last().drop_last() + (
                    seq![cur] + b.with_bases()));
                    cur = b;
                },
                None => {
                    assert(out@.drop_last() + seq![cur] =~= out@);
                    return out;
                },
            }
        }
    }

    /// The libraries that `name` stands for: the library of that name and
    /// everything that it builds on. An unknown name is a configuration
    /// error.
    pub fn load(name: &str) -> (r: Result<Vec<Lib>, ConfigError>)
        ensures
            match Lib::named(name@) {
                Some(l) => r.is_ok() && r.unwrap()@ == l.with_bases(),
                None => r.is_err() && r.unwrap_err()@ == ConfigErrorView::UnknownLib(name@),
            },
    {
        match Lib::parse(name) {
            Some(l) => Ok(l.bases()),
            None => Err(ConfigError::UnknownLib(name.to_owned())),
        }
    }
}

/// The values of a sequence of names.
pub open spec fn name_views(names: Seq<String>) -> Seq<Seq<char>> {
    Seq::new(names.len(), |i: int| names[i]@)
}

/// The first of `names[i..]` that is not the name of a library, if any.
pub open spec fn first_unknown(names: Seq<Seq<char>>, i: nat) -> Option<Seq<char>>
    decreases names.len() - i,
{
    if i >= names.len() {
        None
    } else if Lib::named(names[i as int]).is_none() {
        Some(names[i as int])
    } else {
        first_unknown(names, i + 1)
    }
}

/// The libraries that the first `n` names stand for, each with what it
/// builds on, in the order of the names.
pub open spec fn gathered(names: Seq<Seq<char>>, n: nat) -> Seq<Lib>
    decreases n,
{
    if n == 0 || n > names.len() {
        Seq::empty()
    } else {
        let before = gathered(names, (n - 1) as nat);
        match Lib::named(names[n - 1]) {
            Some(l) => before + l.with_bases(),
            None => before,
        }
    }
}

/// The libraries that a list of names selects: every named library and
/// everything that it builds on, in loading order, each one once. The first
/// name that no library goes by is a configuration error.
pub fn load_all(names: &Vec<String>) -> (r: Result<Vec<Lib>, ConfigError>)
    ensures
        match first_unknown(name_views(names@), 0) {
            Some(n) => r.is_err() && r.unwrap_err()@ == ConfigErrorView::UnknownLib(n),
            None => r.is_ok() && r.unwrap()@ == normalized(
                gathered(name_views(names@), names@.len()),
            ),
        },
{
    let ghost nv = name_views(names@);
    let mut out: Vec<Lib> = Vec::new();
    let mut i: usize = 0;
    while i < names.len()
        invariant
            i <= names.len(),
            nv == name_views(names@),
            first_unknown(nv, 0) == first_unknown(nv, i as nat),
            out@ == gathered(nv, i as nat),
        decreases names.len() - i,
    {
        assert(nv[i as int] == names[i as int]@);
        match Lib::load(names[i].as_str()) {
            Err(e) => {
                return Err(e);
            },
            Ok(libs) => {
                let mut libs = libs;
                out.append(&mut libs);
            },
        }
        i += 1;
    }
    Ok(normalize(&out))
}

/// Whether `libs` holds `lib`.
pub fn holds(libs: &Vec<Lib>, lib: Lib) -> (r: bool)
    ensures
        r == libs@.contains(lib),
{
    let mut i: usize = 0;
    while i < libs.len()
        invariant
            i <= libs.len(),
            forall|j: int| 0 <= j < i ==> libs[j] != lib,
        decreases libs.len() - i,
    {
        if libs[i] == lib {
            return true;
        }
        i += 1;
    }
    false
}

/// Those of the first `n` libraries that `libs` holds, in the order of their
/// codes.
pub open spec fn selected(libs: Seq<Lib>, n: nat) -> Seq<Lib>
    decreases n,
{
    if n == 0 || n > all_libs().len() {
        Seq::empty()
    } else {
        let rest = selected(libs, (n - 1) as nat);
        let lib = all_libs()[n - 1];
        if libs.contains(lib) {
            rest.push(lib)
        } else {
            rest
        }
    }
}

/// The libraries of `libs` in loading order, each one once.
pub open spec fn normalized(libs: Seq<Lib>) -> Seq<Lib> {
    selected(libs, all_libs().len())
}

/// Sorts a list of libraries into loading order and drops the repetitions.
pub fn normalize(libs: &Vec<Lib>) -> (r: Vec<Lib>)
    ensures
        r@ == normalized(libs@),
{
    let all = Lib::all();
    let mut out: Vec<Lib> = Vec::new();
    let mut n: usize = 0;
    while n < all.len()
        invariant
            n <= all.len(),
            all@ == all_libs(),
            out@ == selected(libs@, n as nat),
        decreases all.len() - n,
    {
        if holds(libs, all[n]) {
            out.push(all[n]);
        }
        n += 1;
    }
    out
}

/// The first of `libs[i..]` that `cache` does not hold, if any.
pub open spec fn first_unloaded(cache: Map<Lib, Seq<DeclView>>, libs: Seq<Lib>, i: nat) -> Option<
    Lib,
>
    decreases libs.len() - i,
{
    if i >= libs.len() {
        None
    } else if !cache.contains_key(libs[i as int]) {
        Some(libs[i as int])
    } else {
        first_unloaded(cache, libs, i + 1)
    }
}

/// The cache after the declarations `module` were handed in for `lib`: what
/// was stored first stays.
pub open spec fn stored(cache: Map<Lib, Seq<DeclView>>, lib: Lib, module: Seq<DeclView>) -> Map<
    Lib,
    Seq<DeclView>,
> {
    if cache.contains_key(lib) {
        cache
    } else {
        cache.insert(lib, module)
    }
}

/// The parsed declarations of the built-in libraries. A library is parsed
/// once: the cache keeps what it was given first and hands out the same
/// declarations from then on.
#[derive(Debug)]
pub struct BuiltinCache {
    slots: Vec<Option<Module>>,
}

impl View for BuiltinCache {
    type V = Map<Lib, Seq<DeclView>>;

    closed spec fn view(&self) -> Map<Lib, Seq<DeclView>> {
        Map::new(
            |l: Lib| self.slots[l.code_spec() as int].is_some(),
            |l: Lib| self.slots[l.code_spec() as int].unwrap()@,
        )
    }
}

impl BuiltinCache {
    #[verifier::type_invariant]
    spec fn sized(self) -> bool {
        self.slots.len() == LIB_COUNT
    }

    /// A cache that holds no library yet.
    pub fn new() -> (c: BuiltinCache)
        ensures
            c@ == Map::<Lib, Seq<DeclView>>::empty(),
    {
        let mut slots: Vec<Option<Module>> = Vec::new();
        let mut i: usize = 0;
        while i < LIB_COUNT
            invariant
                i <= LIB_COUNT,
                slots.len() == i,
                forall|j: int| 0 <= j < i ==> slots[j].is_none(),
            decreases LIB_COUNT - i,
        {
            slots.push(None);
            i += 1;
        }
        let c = BuiltinCache { slots };
        assert(c@ =~= Map::<Lib, Seq<DeclView>>::empty());
        c
    }

    /// The declarations of `lib`, if they have been stored.
    pub fn get(&self, lib: Lib) -> (r: Option<&Module>)
        ensures
            match r {
                Some(m) => self@.contains_key(lib) && self@[lib] == m@,
                None => !self@.contains_key(lib),
            },
    {
        proof {
            use_type_invariant(self);
        }
        self.slots[lib.code()].as_ref()
    }

    /// Hands in the parsed declarations of `lib`. They are kept unless the
    /// cache holds declarations for `lib` already, in which case the cache
    /// stays as it was. Says whether they were kept.
    pub fn store(&mut self, lib: Lib, module: Module) -> (kept: bool)
        ensures
            kept == !old(self)@.contains_key(lib),
            final(self)@ == stored(old(self)@, lib, module@),
    {
        proof {
            use_type_invariant(&*self);
        }
        let ghost before = *self;
        let c = lib.code();
        if self.slots[c].is_some() {
            return false;
        }
        let mut taken = BuiltinCache::new();
        core::mem::swap(self, &mut taken);
        let BuiltinCache { slots } = taken;
        let mut slots = slots;
        let ghost mv = module@;
        slots.set(c, Some(module));
        *self = BuiltinCache { slots };
        assert(self@ =~= before@.insert(lib, mv)) by {
            assert forall|l: Lib| l != lib implies l.code_spec() != lib.code_spec() by {}
        }
        true
    }
}

/// Those of the first `n` libraries of `order` that `cache` does not hold.
pub open spec fn unloaded(cache: Map<Lib, Seq<DeclView>>, order: Seq<Lib>, n: nat) -> Seq<Lib>
    decreases n,
{
    if n == 0 || n > order.len() {
        Seq::empty()
    } else {
        let before = unloaded(cache, order, (n - 1) as nat);
        if cache.contains_key(order[n - 1]) {
            before
        } else {
            before.push(order[n - 1])
        }
    }
}

impl BuiltinCache {
    /// The libraries that have to be parsed before `libs` can be used: those
    /// of `libs` that the cache does not hold yet, in loading order, each
    /// one once. What the cache holds is never asked for again.
    pub fn missing(&self, libs: &Vec<Lib>) -> (r: Vec<Lib>)
        ensures
            r@ == unloaded(self@, normalized(libs@), normalized(libs@).len()),
    {
        let order = normalize(libs);
        let mut out: Vec<Lib> = Vec::new();
        let mut n: usize = 0;
        while n < order.len()
            invariant
                n <= order.len(),
                order@ == normalized(libs@),
                out@ == unloaded(self@, order@, n as nat),
            decreases order.len() - n,
        {
            if self.get(order[n]).is_none() {
                out.push(order[n]);
            }
            n += 1;
        }
        out
    }
}

/// The cache never replaces what it holds: a second hand-in for the same
/// library changes nothing, and the library's declarations stay those that
/// were stored first.
pub proof fn law_cache_keeps_first(
    cache: Map<Lib, Seq<DeclView>>,
    lib: Lib,
    first: Seq<DeclView>,
    second: Seq<DeclView>,
)
    ensures
        stored(stored(cache, lib, first), lib, second) == stored(cache, lib, first),
        stored(cache, lib, first).contains_key(lib),
        !cache.contains_key(lib) ==> stored(cache, lib, first)[lib] == first,
        cache.contains_key(lib) ==> stored(cache, lib, first)[lib] == cache[lib],
{
}

/// Nothing is parsed twice: a library is to be parsed exactly when it is
/// among those asked for and the cache does not hold it.
pub proof fn law_only_missing_libraries_are_parsed(
    cache: Map<Lib, Seq<DeclView>>,
    order: Seq<Lib>,
    n: nat,
    l: Lib,
)
    requires
        n <= order.len(),
    ensures
        unloaded(cache, order, n).contains(l) <==> (!cache.contains_key(l) && exists|i: int|
            0 <= i < n && order[i] == l),
    decreases n,
{
    if n > 0 {
        law_only_missing_libraries_are_parsed(cache, order, (n - 1) as nat, l);
        let before = unloaded(cache, order, (n - 1) as nat);
        let last = order[n - 1];
        if !cache.contains_key(last) {
            let now = before.push(last);
            assert(now[before.len() as int] == last);
            if before.contains(l) {
                let i = choose|i: int| 0 <= i < before.len() && before[i] == l;
                assert(now[i] == l);
            }
            if now.contains(l) && l != last {
                let i = choose|i: int| 0 <= i < now.len() && now[i] == l;
                assert(before[i] == l);
            }
        }
    }
}

proof fn lemma_selected_depends_on_membership(a: Seq<Lib>, b: Seq<Lib>, n: nat)
    requires
        forall|l: Lib| a.contains(l) == b.contains(l),
    ensures
        selected(a, n) == selected(b, n),
    decreases n,
{
    if n > 0 && n <= all_libs().len() {
        lemma_selected_depends_on_membership(a, b, (n - 1) as nat);
    }
}

/// Loading does not depend on the order in which the libraries were named,
/// nor on how often: two lists that name the same libraries normalize to the
/// same list.
pub proof fn law_normalize_ignores_order(a: Seq<Lib>, b: Seq<Lib>)
    requires
        forall|l: Lib| a.contains(l) == b.contains(l),
    ensures
        normalized(a) == normalized(b),
{
    lemma_selected_depends_on_membership(a, b, all_libs().len());
}

proof fn lemma_selected_members(libs: Seq<Lib>, n: nat, l: Lib)
    requires
        n <= all_libs().len(),
    ensures
        selected(libs, n).contains(l) <==> (libs.contains(l) && l.code_spec() < n),
        forall|i: int| 0 <= i < selected(libs, n).len() ==> (#[trigger] selected(libs, n)[i]).code_spec() < n,
    decreases n,
{
    if n > 0 {
        lemma_selected_members(libs, (n - 1) as nat, l);
        let rest = selected(libs, (n - 1) as nat);
        let lib = all_libs()[n - 1];
        assert(lib.code_spec() == n - 1);
        assert(all_libs()[l.code_spec() as int] == l);
        if libs.contains(lib) {
            let s = rest.push(lib);
            assert(s[rest.len() as int] == lib);
            if l == lib {
                assert(s.contains(l));
            }
            if rest.contains(l) {
                let i = choose|i: int| 0 <= i < rest.len() && rest[i] == l;
                assert(s[i] == l);
            }
            if s.contains(l) && l != lib {
                let i = choose|i: int| 0 <= i < s.len() && s[i] == l;
                assert(rest[i] == l);
            }
        }
    }
}

proof fn lemma_selected_sorted(libs: Seq<Lib>, n: nat)
    requires
        n <= all_libs().len(),
    ensures
        forall|i: int, j: int|
            0 <= i < j < selected(libs, n).len() ==> (#[trigger] selected(libs, n)[i]).code_spec()
                < (#[trigger] selected(libs, n)[j]).code_spec(),
    decreases n,
{
    if n > 0 {
        lemma_selected_sorted(libs, (n - 1) as nat);
        lemma_selected_members(libs, (n - 1) as nat, Lib::Es5);
        assert(all_libs()[n - 1].code_spec() == n - 1);
    }
}

/// A normalized list holds exactly the libraries of the list it was made
/// from, each one once, in ascending order of their codes.
pub proof fn law_normalized_is_sorted_set(libs: Seq<Lib>)
    ensures
        forall|l: Lib| normalized(libs).contains(l) == libs.contains(l),
        forall|i: int, j: int|
            0 <= i < j < normalized(libs).len() ==> (#[trigger] normalized(libs)[i]).code_spec() < (
            #[trigger] normalized(libs)[j]).code_spec(),
{
    assert forall|l: Lib| normalized(libs).contains(l) == libs.contains(l) by {
        lemma_selected_members(libs, all_libs().len(), l);
    }
    lemma_selected_sorted(libs, all_libs().len());
}

} // verus!
