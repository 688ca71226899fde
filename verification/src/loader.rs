//! Loaders: how an import specifier becomes the bindings of another module.
//!
//! The analyzer never touches the file system. It asks a loader, and a
//! loader that knows no module at all is a valid one. Nothing is promised of
//! what a loader answers: the analyzer states what it does with every
//! possible answer.
use vstd::prelude::*;
use crate::bindings::{Bindings, EntryView};
use crate::id::IdView;
use crate::module_id::{FileName, FileNameView};

verus! {

/// Resolves import specifiers.
pub trait Load {
    /// A copy of the finished bindings of the module that `specifier` names
    /// when it is imported from the module at `from`, or `None` where there
    /// is no such module.
    fn resolve(&self, specifier: &str, from: &FileName) -> Option<Bindings>;
}

/// The loader for the analysis of a single file: it finds no module, so
/// every import stays undeclared.
#[derive(Clone, Copy, Debug)]
pub struct NoopLoader;

impl Load for NoopLoader {
    fn resolve(&self, specifier: &str, from: &FileName) -> (r: Option<Bindings>)
        ensures
            r.is_none(),
    {
        None
    }
}

/// The value of what a loader answered.
pub open spec fn answer_view(a: Option<Bindings>) -> Option<Map<IdView, EntryView>> {
    match a {
        Some(b) => Some(b@),
        None => None,
    }
}

/// The values of a sequence of answers.
pub open spec fn answer_views(answers: Seq<Option<Bindings>>) -> Seq<
    Option<Map<IdView, EntryView>>,
> {
    Seq::new(answers.len(), |i: int| answer_view(answers[i]))
}

/// Whether `a` is something that `loader` may answer when it is asked for
/// `specifier` from the module at `from`.
pub open spec fn asked<L: Load>(
    loader: L,
    from: FileNameView,
    specifier: Seq<char>,
    a: Option<Bindings>,
) -> bool {
    exists|s: &str, p: FileName|
        s@ == specifier && p@ == from && #[trigger] call_ensures(L::resolve, (&loader, s, &p), a)
}

/// The loader that finds no module answers nothing, whatever it is asked.
pub proof fn lemma_noop_answers_nothing(
    from: FileNameView,
    specifier: Seq<char>,
    a: Option<Bindings>,
)
    requires
        asked(NoopLoader, from, specifier, a),
    ensures
        a.is_none(),
{
    let (s, p): (&str, FileName) = choose|s: &str, p: FileName|
        s@ == specifier && p@ == from && #[trigger] call_ensures(
            NoopLoader::resolve,
            (&NoopLoader, s, &p),
            a,
        );
    assert(call_ensures(NoopLoader::resolve, (&NoopLoader, s, &p), a));
}

} // verus!
