//! Module identities: every module that is analysed gets an identifier and a
//! top-level scope marker that no other module has.
use vstd::prelude::*;
use crate::id::Mark;

verus! {

/// Distinguishes one module from another. The value 0 stands for the
/// synthetic module of the built-in declarations.
#[derive(Clone, Copy, Debug, PartialEq, Eq, Structural, Hash)]
pub struct ModuleId(pub u32);

impl ModuleId {
    /// The identity of the built-in module.
    pub fn builtin() -> (id: ModuleId)
        ensures
            id == ModuleId(0),
    {
        ModuleId(0)
    }

    /// Whether this is the identity of the built-in module.
    pub fn is_builtin(self) -> (r: bool)
        ensures
            r == (self == ModuleId(0)),
    {
        self.0 == 0
    }
}

/// The mathematical value of a [`FileName`].
pub enum FileNameView {
    Real(Seq<char>),
    Anon,
    Custom(Seq<char>),
}

/// Where a module was declared.
#[derive(Debug)]
pub enum FileName {
    /// A path on disk.
    Real(String),
    /// No name at all.
    Anon,
    /// A name that is no path.
    Custom(String),
}

impl View for FileName {
    type V = FileNameView;

    open spec fn view(&self) -> FileNameView {
        match self {
            FileName::Real(p) => FileNameView::Real(p@),
            FileName::Anon => FileNameView::Anon,
            FileName::Custom(n) => FileNameView::Custom(n@),
        }
    }
}

impl Clone for FileName {
    fn clone(&self) -> (r: FileName)
        ensures
            r@ == self@,
    {
        match self {
            FileName::Real(p) => FileName::Real(p.clone()),
            FileName::Anon => FileName::Anon,
            FileName::Custom(n) => FileName::Custom(n.clone()),
        }
    }
}

impl FileName {
    /// Whether two names are the same.
    pub fn same(&self, other: &FileName) -> (r: bool)
        ensures
            r == (self@ == other@),
    {
        match (self, other) {
            (FileName::Real(a), FileName::Real(b)) => *a == *b,
            (FileName::Anon, FileName::Anon) => true,
            (FileName::Custom(a), FileName::Custom(b)) => *a == *b,
            _ => false,
        }
    }
}

/// Hands out module identities. Its value is the list of the paths it has
/// served, in order: the module at position `i` of that list has the
/// identifier and the marker `i + 1`.
#[derive(Debug)]
pub struct ModuleIdGenerator {
    paths: Vec<FileName>,
}

/// The values of a sequence of file names.
pub open spec fn file_name_views(names: Seq<FileName>) -> Seq<FileNameView> {
    Seq::new(names.len(), |i: int| names[i]@)
}

impl View for ModuleIdGenerator {
    type V = Seq<FileNameView>;

    closed spec fn view(&self) -> Seq<FileNameView> {
        file_name_views(self.paths@)
    }
}

/// The identity that a generator hands out when it has served `n` modules
/// before.
pub open spec fn issued(n: nat) -> (ModuleId, Mark) {
    (ModuleId((n + 1) as u32), Mark((n + 1) as u32))
}

/// No identity is handed out twice, and none is that of the built-in
/// module: the identities of two different calls differ in the identifier
/// and in the marker.
pub proof fn law_identities_are_fresh(i: nat, j: nat)
    requires
        i != j,
        i < u32::MAX - 1,
        j < u32::MAX - 1,
    ensures
        issued(i).0 != issued(j).0,
        issued(i).1 != issued(j).1,
        issued(i).0 != ModuleId(0),
{
}

impl ModuleIdGenerator {
    #[verifier::type_invariant]
    spec fn bounded(self) -> bool {
        self.paths.len() < u32::MAX
    }

    /// A generator that has not served any module yet.
    pub fn new() -> (g: ModuleIdGenerator)
        ensures
            g@ == Seq::<FileNameView>::empty(),
    {
        let g = ModuleIdGenerator { paths: Vec::new() };
        assert(g@ =~= Seq::<FileNameView>::empty());
        g
    }

    /// The number of identities still to be had.
    pub open spec fn remaining(&self) -> int {
        u32::MAX - 1 - self@.len()
    }

    /// A fresh identity and top-level marker for the module at `path`. The
    /// same path asked twice gets two different identities. `None` only when
    /// all identities have been handed out.
    pub fn generate(&mut self, path: &FileName) -> (r: Option<(ModuleId, Mark)>)
        ensures
            old(self).remaining() > 0 ==> r == Some(issued(old(self)@.len())) && final(self)@ == old(
                self,
            )@.push(path@),
            old(self).remaining() <= 0 ==> r.is_none() && final(self)@ == old(self)@,
    {
        proof {
            use_type_invariant(&*self);
        }
        let ghost before = self@;
        let mut taken = ModuleIdGenerator { paths: Vec::new() };
        core::mem::swap(self, &mut taken);
        let ModuleIdGenerator { paths } = taken;
        let mut paths = paths;
        let n = paths.len();
        if n >= 0xffff_fffe {
            *self = ModuleIdGenerator { paths };
            assert(self@ =~= before);
            return None;
        }
        let next: u32 = (n + 1) as u32;
        paths.push(path.clone());
        *self = ModuleIdGenerator { paths };
        assert(self@ =~= before.push(path@));
        Some((ModuleId(next), Mark(next)))
    }

    /// The path that `id` was generated for.
    pub fn path(&self, id: ModuleId) -> (r: Option<&FileName>)
        ensures
            match r {
                Some(p) => 1 <= id.0 <= self@.len() && p@ == self@[id.0 - 1],
                None => !(1 <= id.0 <= self@.len()),
            },
    {
        if id.0 == 0 {
            return None;
        }
        let i: usize = (id.0 - 1) as usize;
        if i < self.paths.len() {
            Some(&self.paths[i])
        } else {
            None
        }
    }
}

} // verus!
