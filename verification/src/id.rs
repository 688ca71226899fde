//! Hygienic identifiers: a name together with the marker of the scope that
//! declared it.
use vstd::prelude::*;

verus! {

/// An opaque tag minted for a module or a synthetic scope. Two markers can
/// only be compared for equality.
#[derive(Clone, Copy, Debug, PartialEq, Eq, Structural, Hash)]
pub struct Mark(pub u32);

/// The marker that stands for the syntax context `ctxt` of a parsed file.
/// The context of the file's top level has the marker `top`, the context of
/// the names that the file uses without declaring them has the global marker
/// 0, and the context of a nested scope counts down from the largest marker,
/// away from the small numbers that modules get.
pub open spec fn mark_of_spec(ctxt: u32, top_ctxt: u32, top: Mark, free_ctxt: u32) -> Mark {
    if ctxt == top_ctxt {
        top
    } else if ctxt == free_ctxt {
        Mark(0)
    } else {
        Mark((u32::MAX - ctxt) as u32)
    }
}

/// The marker that stands for the syntax context `ctxt` of a parsed file.
pub fn mark_of(ctxt: u32, top_ctxt: u32, top: Mark, free_ctxt: u32) -> (m: Mark)
    ensures
        m == mark_of_spec(ctxt, top_ctxt, top, free_ctxt),
        m == if ctxt == top_ctxt {
            top
        } else if ctxt == free_ctxt {
            Mark(0)
        } else {
            Mark((u32::MAX - ctxt) as u32)
        },
{
    if ctxt == top_ctxt {
        top
    } else if ctxt == free_ctxt {
        Mark(0)
    } else {
        Mark(u32::MAX - ctxt)
    }
}

/// How far the markers of nested scopes stay apart from the others. Two
/// different nested contexts get different markers. The marker of a nested
/// context is the global marker only for the largest context of all, and it
/// is above the first `modules` markers that modules get as long as the
/// context is below `u32::MAX - modules`.
pub proof fn law_nested_markers_stay_apart(
    c1: u32,
    c2: u32,
    top_ctxt: u32,
    top: Mark,
    free_ctxt: u32,
    modules: u32,
)
    requires
        c1 != top_ctxt,
        c1 != free_ctxt,
        c2 != top_ctxt,
        c2 != free_ctxt,
    ensures
        c1 != c2 ==> mark_of_spec(c1, top_ctxt, top, free_ctxt) != mark_of_spec(
            c2,
            top_ctxt,
            top,
            free_ctxt,
        ),
        mark_of_spec(c1, top_ctxt, top, free_ctxt) == Mark(0) <==> c1 == u32::MAX,
        c1 < u32::MAX - modules ==> mark_of_spec(c1, top_ctxt, top, free_ctxt).0 > modules,
{
}

/// The mathematical value of an [`Id`]: its text and its marker.
pub struct IdView {
    pub name: Seq<char>,
    pub mark: Mark,
}

/// A binding occurrence or a reference: the same text under two different
/// markers names two different bindings. Equality and hashing go by both.
#[derive(Debug, Hash)]
pub struct Id {
    pub name: String,
    pub mark: Mark,
}

impl View for Id {
    type V = IdView;

    open spec fn view(&self) -> IdView {
        IdView { name: self.name@, mark: self.mark }
    }
}

impl Id {
    /// An identifier with the given text, declared in the scope of `mark`.
    pub fn new(name: &str, mark: Mark) -> (id: Id)
        ensures
            id@ == (IdView { name: name@, mark }),
    {
        Id { name: name.to_owned(), mark }
    }

    /// Whether two identifiers denote the same binding: both the text and the
    /// marker agree.
    pub fn same(&self, other: &Id) -> (r: bool)
        ensures
            r == (self@ == other@),
    {
        self.mark.0 == other.mark.0 && self.name == other.name
    }
}

impl Clone for Id {
    fn clone(&self) -> (r: Id)
        ensures
            r@ == self@,
    {
        Id { name: self.name.clone(), mark: self.mark }
    }
}

impl PartialEq for Id {
    fn eq(&self, other: &Id) -> (r: bool) {
        self.same(other)
    }
}

impl Eq for Id {}

impl vstd::std_specs::cmp::PartialEqSpecImpl for Id {
    open spec fn obeys_eq_spec() -> bool {
        true
    }

    open spec fn eq_spec(&self, other: &Id) -> bool {
        self@ == other@
    }
}

} // verus!
