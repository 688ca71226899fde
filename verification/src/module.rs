//! A module as the analyzer receives it: parsed, and with every identifier
//! marked by the scope that declared it.
use vstd::prelude::*;
use crate::id::{Id, IdView};
use crate::ty::{bind_params, bound, id_views, Type, TypeView};

verus! {

/// The mathematical value of a [`Decl`].
pub enum DeclView {
    Type { id: IdView, body: TypeView },
    Import { local: IdView, exported: IdView, specifier: Seq<char> },
}

/// A top-level declaration.
#[derive(Debug)]
pub enum Decl {
    /// `id` is declared as `body`: a type alias, or an interface where
    /// `body` is an object shape.
    Type { id: Id, body: Type },
    /// `local` is what the module named by `specifier` exports as
    /// `exported`.
    Import { local: Id, exported: Id, specifier: String },
}

impl View for Decl {
    type V = DeclView;

    open spec fn view(&self) -> DeclView {
        match self {
            Decl::Type { id, body } => DeclView::Type { id: id@, body: body@ },
            Decl::Import { local, exported, specifier } => DeclView::Import {
                local: local@,
                exported: exported@,
                specifier: specifier@,
            },
        }
    }
}

impl Clone for Decl {
    fn clone(&self) -> (r: Decl)
        ensures
            r@ == self@,
    {
        match self {
            Decl::Type { id, body } => Decl::Type { id: id.clone(), body: body.clone() },
            Decl::Import { local, exported, specifier } => Decl::Import {
                local: local.clone(),
                exported: exported.clone(),
                specifier: specifier.clone(),
            },
        }
    }
}

/// What a declaration with the type parameters `type_params` and the body
/// `written` declares, where `written` still mentions the parameters as
/// plain references: the body itself where there is no parameter, else the
/// generic declaration of it, and in both the mentions of type parameters
/// told apart from the references.
pub open spec fn declared_body(type_params: Seq<IdView>, written: TypeView) -> TypeView {
    if type_params.len() == 0 {
        bound(written, Seq::empty())
    } else {
        bound(TypeView::Generic { type_params, body: Box::new(written) }, Seq::empty())
    }
}

impl Decl {
    /// The declaration of `id` with the type parameters `type_params` as
    /// `written`, where `written` mentions the parameters as plain
    /// references.
    pub fn declare(id: Id, type_params: Vec<Id>, written: Type) -> (d: Decl)
        ensures
            d@ == (DeclView::Type { id: id@, body: declared_body(id_views(type_params@), written@) }),
    {
        let scope: Vec<Id> = Vec::new();
        assert(id_views(scope@) =~= Seq::<IdView>::empty());
        assert(id_views(type_params@).len() == type_params.len());
        let body = if type_params.len() == 0 {
            bind_params(&written, &scope)
        } else {
            bind_params(&Type::Generic { type_params, body: Box::new(written) }, &scope)
        };
        Decl::Type { id, body }
    }
}

/// The values of a sequence of declarations.
pub open spec fn decl_views(ds: Seq<Decl>) -> Seq<DeclView> {
    Seq::new(ds.len(), |i: int| ds[i]@)
}

/// A parsed module: its top-level declarations in source order.
#[derive(Debug)]
pub struct Module {
    pub body: Vec<Decl>,
}

impl View for Module {
    type V = Seq<DeclView>;

    open spec fn view(&self) -> Seq<DeclView> {
        decl_views(self.body@)
    }
}

impl Clone for Module {
    fn clone(&self) -> (r: Module)
        ensures
            r@ == self@,
    {
        let mut body: Vec<Decl> = Vec::new();
        let mut i: usize = 0;
        while i < self.body.len()
            invariant
                i <= self.body.len(),
                body.len() == i,
                forall|j: int| 0 <= j < i ==> body[j]@ == self.body[j]@,
            decreases self.body.len() - i,
        {
            body.push(self.body[i].clone());
            i += 1;
        }
        assert(decl_views(body@) =~= decl_views(self.body@));
        Module { body }
    }
}

} // verus!
