//! Structural types: immutable recursive values compared by shape.
//!
//! A recursive shape never owns itself. It mentions its own name through a
//! [`Type::Ref`], which is looked up again when it is needed.
use vstd::prelude::*;
use crate::id::{Id, IdView};

verus! {

/// The primitive types.
#[derive(Clone, Copy, Debug, PartialEq, Eq, Structural)]
pub enum Keyword {
    Any,
    Unknown,
    Number,
    String,
    Boolean,
    BigInt,
    Symbol,
    Object,
    Null,
    Undefined,
    Void,
    Never,
}

/// The mathematical value of a [`Lit`].
pub enum LitView {
    Bool(bool),
    Number(u64),
    Str(Seq<char>),
}

/// A literal type. A numeric literal is kept as the bit pattern of its
/// double-precision value, so that two literals are equal exactly when they
/// are written by the same bits.
#[derive(Debug)]
pub enum Lit {
    Bool(bool),
    Number(u64),
    Str(String),
}

impl View for Lit {
    type V = LitView;

    open spec fn view(&self) -> LitView {
        match self {
            Lit::Bool(b) => LitView::Bool(*b),
            Lit::Number(n) => LitView::Number(*n),
            Lit::Str(s) => LitView::Str(s@),
        }
    }
}

impl Lit {
    /// Whether two literals are the same value.
    pub fn same(&self, other: &Lit) -> (r: bool)
        ensures
            r == (self@ == other@),
    {
        match (self, other) {
            (Lit::Bool(a), Lit::Bool(b)) => *a == *b,
            (Lit::Number(a), Lit::Number(b)) => *a == *b,
            (Lit::Str(a), Lit::Str(b)) => *a == *b,
            _ => false,
        }
    }
}

impl Clone for Lit {
    fn clone(&self) -> (r: Lit)
        ensures
            r@ == self@,
    {
        match self {
            Lit::Bool(b) => Lit::Bool(*b),
            Lit::Number(n) => Lit::Number(*n),
            Lit::Str(s) => Lit::Str(s.clone()),
        }
    }
}

/// The mathematical value of a [`Member`].
pub struct MemberView {
    pub key: Seq<char>,
    pub optional: bool,
    pub ty: TypeView,
}

/// The mathematical value of a [`Type`]: the same tree over sequences.
pub enum TypeView {
    Keyword(Keyword),
    Lit(LitView),
    Ref { id: IdView, args: Seq<TypeView> },
    Param(IdView),
    Object { members: Seq<MemberView> },
    Union(Seq<TypeView>),
    Intersection(Seq<TypeView>),
    Function { type_params: Seq<IdView>, params: Seq<TypeView>, ret: Box<TypeView> },
    Conditional { check: Box<TypeView>, extends: Box<TypeView>, truthy: Box<TypeView>, falsy: Box<TypeView> },
    Mapped { param: IdView, constraint: Box<TypeView>, value: Box<TypeView> },
    IndexedAccess { object: Box<TypeView>, index: Box<TypeView> },
    Generic { type_params: Seq<IdView>, body: Box<TypeView> },
}

/// A named, typed member of an object shape.
#[derive(Debug)]
pub struct Member {
    pub key: String,
    pub optional: bool,
    pub ty: Type,
}

/// A structural type.
#[derive(Debug)]
pub enum Type {
    /// A primitive.
    Keyword(Keyword),
    /// A literal.
    Lit(Lit),
    /// A reference to a declared name, with its type arguments.
    Ref { id: Id, args: Vec<Type> },
    /// A type parameter of the declaration around it.
    Param(Id),
    /// An object shape: its members in declaration order.
    Object { members: Vec<Member> },
    Union(Vec<Type>),
    Intersection(Vec<Type>),
    /// A function signature.
    Function { type_params: Vec<Id>, params: Vec<Type>, ret: Box<Type> },
    /// `check extends extends ? truthy : falsy`.
    Conditional { check: Box<Type>, extends: Box<Type>, truthy: Box<Type>, falsy: Box<Type> },
    /// `{ [param in constraint]: value }`.
    Mapped { param: Id, constraint: Box<Type>, value: Box<Type> },
    /// `object[index]`.
    IndexedAccess { object: Box<Type>, index: Box<Type> },
    /// A declaration with type parameters: it stands for `body` once an
    /// argument is given for each of `type_params`.
    Generic { type_params: Vec<Id>, body: Box<Type> },
}

/// The values of a sequence of identifiers.
pub open spec fn id_views(ids: Seq<Id>) -> Seq<IdView> {
    Seq::new(ids.len(), |i: int| ids[i]@)
}

/// The values of a sequence of types, element by element.
pub open spec fn views(ts: Seq<Type>) -> Seq<TypeView>
    decreases ts,
{
    Seq::new(
        ts.len(),
        |i: int|
            if 0 <= i < ts.len() {
                model(ts[i])
            } else {
                TypeView::Keyword(Keyword::Any)
            },
    )
}

/// The values of a sequence of members, element by element.
pub open spec fn member_views(ms: Seq<Member>) -> Seq<MemberView>
    decreases ms,
{
    Seq::new(
        ms.len(),
        |i: int|
            if 0 <= i < ms.len() {
                MemberView { key: ms[i].key@, optional: ms[i].optional, ty: model(ms[i].ty) }
            } else {
                MemberView { key: Seq::empty(), optional: false, ty: TypeView::Keyword(Keyword::Any) }
            },
    )
}

/// The value of a type.
pub open spec fn model(t: Type) -> TypeView
    decreases t,
{
    match t {
        Type::Keyword(k) => TypeView::Keyword(k),
        Type::Lit(l) => TypeView::Lit(l@),
        Type::Ref { id, args } => TypeView::Ref { id: id@, args: views(args@) },
        Type::Param(id) => TypeView::Param(id@),
        Type::Object { members } => TypeView::Object { members: member_views(members@) },
        Type::Union(ts) => TypeView::Union(views(ts@)),
        Type::Intersection(ts) => TypeView::Intersection(views(ts@)),
        Type::Function { type_params, params, ret } => TypeView::Function {
            type_params: id_views(type_params@),
            params: views(params@),
            ret: Box::new(model(*ret)),
        },
        Type::Conditional { check, extends, truthy, falsy } => TypeView::Conditional {
            check: Box::new(model(*check)),
            extends: Box::new(model(*extends)),
            truthy: Box::new(model(*truthy)),
            falsy: Box::new(model(*falsy)),
        },
        Type::Mapped { param, constraint, value } => TypeView::Mapped {
            param: param@,
            constraint: Box::new(model(*constraint)),
            value: Box::new(model(*value)),
        },
        Type::IndexedAccess { object, index } => TypeView::IndexedAccess {
            object: Box::new(model(*object)),
            index: Box::new(model(*index)),
        },
        Type::Generic { type_params, body } => TypeView::Generic {
            type_params: id_views(type_params@),
            body: Box::new(model(*body)),
        },
    }
}

impl View for Type {
    type V = TypeView;

    open spec fn view(&self) -> TypeView {
        model(*self)
    }
}

impl View for Member {
    type V = MemberView;

    open spec fn view(&self) -> MemberView {
        MemberView { key: self.key@, optional: self.optional, ty: self.ty@ }
    }
}

/// A copy of a list of identifiers.
pub fn clone_ids(ids: &Vec<Id>) -> (r: Vec<Id>)
    ensures
        id_views(r@) == id_views(ids@),
{
    let mut out: Vec<Id> = Vec::new();
    let mut i: usize = 0;
    while i < ids.len()
        invariant
            i <= ids.len(),
            out.len() == i,
            forall|j: int| 0 <= j < i ==> out[j]@ == ids[j]@,
        decreases ids.len() - i,
    {
        out.push(ids[i].clone());
        i += 1;
    }
    assert(id_views(out@) =~= id_views(ids@));
    out
}

/// Whether two lists of identifiers agree position by position.
pub fn ids_same(a: &Vec<Id>, b: &Vec<Id>) -> (r: bool)
    ensures
        r == (id_views(a@) == id_views(b@)),
{
    if a.len() != b.len() {
        assert(id_views(a@).len() != id_views(b@).len());
        return false;
    }
    let mut i: usize = 0;
    while i < a.len()
        invariant
            i <= a.len(),
            a.len() == b.len(),
            forall|j: int| 0 <= j < i ==> a[j]@ == b[j]@,
        decreases a.len() - i,
    {
        if !a[i].same(&b[i]) {
            assert(id_views(a@)[i as int] != id_views(b@)[i as int]);
            return false;
        }
        i += 1;
    }
    assert(id_views(a@) =~= id_views(b@));
    true
}

/// A structural copy of a list of types.
pub fn clone_types(ts: &Vec<Type>) -> (r: Vec<Type>)
    ensures
        views(r@) == views(ts@),
    decreases ts,
{
    let mut out: Vec<Type> = Vec::new();
    let mut i: usize = 0;
    while i < ts.len()
        invariant
            i <= ts.len(),
            out.len() == i,
            forall|j: int| 0 <= j < i ==> out[j]@ == ts[j]@,
        decreases ts.len() - i,
    {
        out.push(ts[i].clone());
        i += 1;
    }
    assert(views(out@) =~= views(ts@));
    out
}

/// A structural copy of a list of members.
pub fn clone_members(ms: &Vec<Member>) -> (r: Vec<Member>)
    ensures
        member_views(r@) == member_views(ms@),
    decreases ms,
{
    let mut out: Vec<Member> = Vec::new();
    let mut i: usize = 0;
    while i < ms.len()
        invariant
            i <= ms.len(),
            out.len() == i,
            forall|j: int| 0 <= j < i ==> out[j]@ == ms[j]@,
        decreases ms.len() - i,
    {
        let m = &ms[i];
        out.push(Member { key: m.key.clone(), optional: m.optional, ty: m.ty.clone() });
        i += 1;
    }
    assert(member_views(out@) =~= member_views(ms@));
    out
}

impl Clone for Type {
    fn clone(&self) -> (r: Type)
        ensures
            r@ == self@,
        decreases self,
    {
        match self {
            Type::Keyword(k) => Type::Keyword(*k),
            Type::Lit(l) => Type::Lit(l.clone()),
            Type::Ref { id, args } => Type::Ref { id: id.clone(), args: clone_types(args) },
            Type::Param(id) => Type::Param(id.clone()),
            Type::Object { members } => Type::Object { members: clone_members(members) },
            Type::Union(ts) => Type::Union(clone_types(ts)),
            Type::Intersection(ts) => Type::Intersection(clone_types(ts)),
            Type::Function { type_params, params, ret } => Type::Function {
                type_params: clone_ids(type_params),
                params: clone_types(params),
                ret: Box::new((**ret).clone()),
            },
            Type::Conditional { check, extends, truthy, falsy } => Type::Conditional {
                check: Box::new((**check).clone()),
                extends: Box::new((**extends).clone()),
                truthy: Box::new((**truthy).clone()),
                falsy: Box::new((**falsy).clone()),
            },
            Type::Mapped { param, constraint, value } => Type::Mapped {
                param: param.clone(),
                constraint: Box::new((**constraint).clone()),
                value: Box::new((**value).clone()),
            },
            Type::IndexedAccess { object, index } => Type::IndexedAccess {
                object: Box::new((**object).clone()),
                index: Box::new((**index).clone()),
            },
            Type::Generic { type_params, body } => Type::Generic {
                type_params: clone_ids(type_params),
                body: Box::new((**body).clone()),
            },
        }
    }
}

impl Clone for Member {
    fn clone(&self) -> (r: Member)
        ensures
            r@ == self@,
    {
        Member { key: self.key.clone(), optional: self.optional, ty: self.ty.clone() }
    }
}

/// Whether two lists of types have the same shape position by position.
pub fn types_same(a: &Vec<Type>, b: &Vec<Type>) -> (r: bool)
    ensures
        r == (views(a@) == views(b@)),
    decreases a,
{
    if a.len() != b.len() {
        assert(views(a@).len() != views(b@).len());
        return false;
    }
    let mut i: usize = 0;
    while i < a.len()
        invariant
            i <= a.len(),
            a.len() == b.len(),
            forall|j: int| 0 <= j < i ==> a[j]@ == b[j]@,
        decreases a.len() - i,
    {
        if !a[i].same(&b[i]) {
            assert(views(a@)[i as int] != views(b@)[i as int]);
            return false;
        }
        i += 1;
    }
    assert(views(a@) =~= views(b@));
    true
}

/// Whether two lists of members have the same keys, flags and shapes
/// position by position.
pub fn members_same(a: &Vec<Member>, b: &Vec<Member>) -> (r: bool)
    ensures
        r == (member_views(a@) == member_views(b@)),
    decreases a,
{
    if a.len() != b.len() {
        assert(member_views(a@).len() != member_views(b@).len());
        return false;
    }
    let mut i: usize = 0;
    while i < a.len()
        invariant
            i <= a.len(),
            a.len() == b.len(),
            forall|j: int| 0 <= j < i ==> a[j]@ == b[j]@,
        decreases a.len() - i,
    {
        let x = &a[i];
        let y = &b[i];
        if !(x.key == y.key && x.optional == y.optional && x.ty.same(&y.ty)) {
            assert(member_views(a@)[i as int] != member_views(b@)[i as int]);
            return false;
        }
        i += 1;
    }
    assert(member_views(a@) =~= member_views(b@));
    true
}

impl Type {
    /// Structural equality: two types are the same when they have the same
    /// shape, whatever storage they occupy.
    pub fn same(&self, other: &Type) -> (r: bool)
        ensures
            r == (self@ == other@),
        decreases self,
    {
        match (self, other) {
            (Type::Keyword(a), Type::Keyword(b)) => *a == *b,
            (Type::Lit(a), Type::Lit(b)) => a.same(b),
            (Type::Ref { id: i1, args: a1 }, Type::Ref { id: i2, args: a2 }) => i1.same(i2)
                && types_same(a1, a2),
            (Type::Param(a), Type::Param(b)) => a.same(b),
            (Type::Object { members: m1 }, Type::Object { members: m2 }) => members_same(m1, m2),
            (Type::Union(a), Type::Union(b)) => types_same(a, b),
            (Type::Intersection(a), Type::Intersection(b)) => types_same(a, b),
            (
                Type::Function { type_params: t1, params: pa, ret: r1 },
                Type::Function { type_params: t2, params: pb, ret: r2 },
            ) => ids_same(t1, t2) && types_same(pa, pb) && (**r1).same(&**r2),
            (
                Type::Conditional { check: c1, extends: e1, truthy: t1, falsy: f1 },
                Type::Conditional { check: c2, extends: e2, truthy: t2, falsy: f2 },
            ) => (**c1).same(&**c2) && (**e1).same(&**e2) && (**t1).same(&**t2) && (**f1).same(
                &**f2,
            ),
            (
                Type::Mapped { param: pa, constraint: c1, value: v1 },
                Type::Mapped { param: pb, constraint: c2, value: v2 },
            ) => pa.same(pb) && (**c1).same(&**c2) && (**v1).same(&**v2),
            (
                Type::IndexedAccess { object: o1, index: i1 },
                Type::IndexedAccess { object: o2, index: i2 },
            ) => (**o1).same(&**o2) && (**i1).same(&**i2),
            (
                Type::Generic { type_params: pa, body: b1 },
                Type::Generic { type_params: pb, body: b2 },
            ) => ids_same(pa, pb) && (**b1).same(&**b2),
            _ => false,
        }
    }

    /// Whether this is an object shape.
    pub fn is_object(&self) -> (r: bool)
        ensures
            r == (self@ is Object),
    {
        match self {
            Type::Object { .. } => true,
            _ => false,
        }
    }

    /// Whether this is a function signature.
    pub fn is_function(&self) -> (r: bool)
        ensures
            r == (self@ is Function),
    {
        match self {
            Type::Function { .. } => true,
            _ => false,
        }
    }
}

/// The first position at which `params` holds `p`, or the length of
/// `params` where it does not hold `p`.
pub open spec fn position(params: Seq<IdView>, p: IdView) -> int
    decreases params.len(),
{
    if params.len() == 0 {
        0
    } else if params[0] == p {
        0
    } else {
        1 + position(params.drop_first(), p)
    }
}

/// The type `t` with every mention of a parameter of `params` replaced by
/// the argument at the same position of `args`. A parameter without an
/// argument stays. Identifiers are hygienic, so an inner declaration never
/// captures a parameter of an outer one, and nothing needs to be renamed.
pub open spec fn subst(t: TypeView, params: Seq<IdView>, args: Seq<TypeView>) -> TypeView
    decreases t,
{
    match t {
        TypeView::Keyword(_) => t,
        TypeView::Lit(_) => t,
        TypeView::Param(p) => {
            let i = position(params, p);
            if i < params.len() && i < args.len() {
                args[i]
            } else {
                t
            }
        },
        TypeView::Ref { id, args: given } => TypeView::Ref {
            id,
            args: subst_all(given, params, args),
        },
        TypeView::Object { members } => TypeView::Object {
            members: subst_members(members, params, args),
        },
        TypeView::Union(ts) => TypeView::Union(subst_all(ts, params, args)),
        TypeView::Intersection(ts) => TypeView::Intersection(subst_all(ts, params, args)),
        TypeView::Function { type_params, params: ps, ret } => TypeView::Function {
            type_params,
            params: subst_all(ps, params, args),
            ret: Box::new(subst(*ret, params, args)),
        },
        TypeView::Conditional { check, extends, truthy, falsy } => TypeView::Conditional {
            check: Box::new(subst(*check, params, args)),
            extends: Box::new(subst(*extends, params, args)),
            truthy: Box::new(subst(*truthy, params, args)),
            falsy: Box::new(subst(*falsy, params, args)),
        },
        TypeView::Mapped { param, constraint, value } => TypeView::Mapped {
            param,
            constraint: Box::new(subst(*constraint, params, args)),
            value: Box::new(subst(*value, params, args)),
        },
        TypeView::IndexedAccess { object, index } => TypeView::IndexedAccess {
            object: Box::new(subst(*object, params, args)),
            index: Box::new(subst(*index, params, args)),
        },
        TypeView::Generic { type_params, body } => TypeView::Generic {
            type_params,
            body: Box::new(subst(*body, params, args)),
        },
    }
}

/// [`subst`] on every type of a sequence.
pub open spec fn subst_all(ts: Seq<TypeView>, params: Seq<IdView>, args: Seq<TypeView>) -> Seq<
    TypeView,
>
    decreases ts,
{
    Seq::new(
        ts.len(),
        |i: int|
            if 0 <= i < ts.len() {
                subst(ts[i], params, args)
            } else {
                TypeView::Keyword(Keyword::Any)
            },
    )
}

/// [`subst`] on the type of every member of a sequence.
pub open spec fn subst_members(ms: Seq<MemberView>, params: Seq<IdView>, args: Seq<TypeView>) -> Seq<
    MemberView,
>
    decreases ms,
{
    Seq::new(
        ms.len(),
        |i: int|
            if 0 <= i < ms.len() {
                MemberView { ty: subst(ms[i].ty, params, args), ..ms[i] }
            } else {
                MemberView { key: Seq::empty(), optional: false, ty: TypeView::Keyword(Keyword::Any) }
            },
    )
}

/// The first position at which `params` holds `p`, if any.
pub fn find_param(params: &Vec<Id>, p: &Id) -> (r: Option<usize>)
    ensures
        match r {
            Some(i) => i == position(id_views(params@), p@) && i < params.len(),
            None => position(id_views(params@), p@) >= params.len(),
        },
{
    let ghost all = id_views(params@);
    let mut i: usize = 0;
    assert(all.skip(0) =~= all);
    while i < params.len()
        invariant
            i <= params.len(),
            all == id_views(params@),
            position(all, p@) == i + position(all.skip(i as int), p@),
        decreases params.len() - i,
    {
        assert(all.skip(i as int)[0] == params[i as int]@);
        if params[i].same(p) {
            return Some(i);
        }
        assert(all.skip(i as int).drop_first() =~= all.skip(i + 1));
        i += 1;
    }
    assert(all.skip(i as int).len() == 0);
    None
}

/// [`Type::substitute`] on every type of a list.
pub fn substitute_all(ts: &Vec<Type>, params: &Vec<Id>, args: &Vec<Type>) -> (r: Vec<Type>)
    ensures
        views(r@) == subst_all(views(ts@), id_views(params@), views(args@)),
    decreases ts,
{
    let mut out: Vec<Type> = Vec::new();
    let mut i: usize = 0;
    while i < ts.len()
        invariant
            i <= ts.len(),
            out.len() == i,
            forall|j: int|
                0 <= j < i ==> out[j]@ == subst(ts[j]@, id_views(params@), views(args@)),
        decreases ts.len() - i,
    {
        out.push(ts[i].substitute(params, args));
        i += 1;
    }
    assert(views(out@) =~= subst_all(views(ts@), id_views(params@), views(args@)));
    out
}

/// [`Type::substitute`] on the type of every member of a list.
pub fn substitute_members(ms: &Vec<Member>, params: &Vec<Id>, args: &Vec<Type>) -> (r: Vec<
    Member,
>)
    ensures
        member_views(r@) == subst_members(member_views(ms@), id_views(params@), views(args@)),
    decreases ms,
{
    let mut out: Vec<Member> = Vec::new();
    let mut i: usize = 0;
    while i < ms.len()
        invariant
            i <= ms.len(),
            out.len() == i,
            forall|j: int|
                0 <= j < i ==> out[j]@ == (MemberView {
                    ty: subst(ms[j].ty@, id_views(params@), views(args@)),
                    ..ms[j]@
                }),
        decreases ms.len() - i,
    {
        let m = &ms[i];
        out.push(
            Member {
                key: m.key.clone(),
                optional: m.optional,
                ty: m.ty.substitute(params, args),
            },
        );
        i += 1;
    }
    assert(member_views(out@) =~= subst_members(
        member_views(ms@),
        id_views(params@),
        views(args@),
    ));
    out
}

impl Type {
    /// This type with every mention of a parameter of `params` replaced by
    /// the argument at the same position of `args`.
    pub fn substitute(&self, params: &Vec<Id>, args: &Vec<Type>) -> (r: Type)
        ensures
            r@ == subst(self@, id_views(params@), views(args@)),
        decreases self,
    {
        match self {
            Type::Keyword(k) => Type::Keyword(*k),
            Type::Lit(l) => Type::Lit(l.clone()),
            Type::Param(p) => match find_param(params, p) {
                Some(i) => {
                    if i < args.len() {
                        args[i].clone()
                    } else {
                        Type::Param(p.clone())
                    }
                },
                None => Type::Param(p.clone()),
            },
            Type::Ref { id, args: given } => Type::Ref {
                id: id.clone(),
                args: substitute_all(given, params, args),
            },
            Type::Object { members } => Type::Object {
                members: substitute_members(members, params, args),
            },
            Type::Union(ts) => Type::Union(substitute_all(ts, params, args)),
            Type::Intersection(ts) => Type::Intersection(substitute_all(ts, params, args)),
            Type::Function { type_params, params: ps, ret } => Type::Function {
                type_params: clone_ids(type_params),
                params: substitute_all(ps, params, args),
                ret: Box::new((**ret).substitute(params, args)),
            },
            Type::Conditional { check, extends, truthy, falsy } => Type::Conditional {
                check: Box::new((**check).substitute(params, args)),
                extends: Box::new((**extends).substitute(params, args)),
                truthy: Box::new((**truthy).substitute(params, args)),
                falsy: Box::new((**falsy).substitute(params, args)),
            },
            Type::Mapped { param, constraint, value } => Type::Mapped {
                param: param.clone(),
                constraint: Box::new((**constraint).substitute(params, args)),
                value: Box::new((**value).substitute(params, args)),
            },
            Type::IndexedAccess { object, index } => Type::IndexedAccess {
                object: Box::new((**object).substitute(params, args)),
                index: Box::new((**index).substitute(params, args)),
            },
            Type::Generic { type_params, body } => Type::Generic {
                type_params: clone_ids(type_params),
                body: Box::new((**body).substitute(params, args)),
            },
        }
    }
}

/// The type `t` with its type parameters told apart from its references:
/// a reference without arguments to an identifier that is in `scope` becomes
/// the mention of a type parameter. A function signature, a mapped type and
/// a generic declaration add their own parameters to the scope of what they
/// hold.
pub open spec fn bound(t: TypeView, scope: Seq<IdView>) -> TypeView
    decreases t,
{
    match t {
        TypeView::Keyword(_) => t,
        TypeView::Lit(_) => t,
        TypeView::Param(_) => t,
        TypeView::Ref { id, args } => if args.len() == 0 && scope.contains(id) {
            TypeView::Param(id)
        } else {
            TypeView::Ref { id, args: bound_all(args, scope) }
        },
        TypeView::Object { members } => TypeView::Object {
            members: bound_members(members, scope),
        },
        TypeView::Union(ts) => TypeView::Union(bound_all(ts, scope)),
        TypeView::Intersection(ts) => TypeView::Intersection(bound_all(ts, scope)),
        TypeView::Function { type_params, params, ret } => TypeView::Function {
            type_params,
            params: bound_all(params, scope + type_params),
            ret: Box::new(bound(*ret, scope + type_params)),
        },
        TypeView::Conditional { check, extends, truthy, falsy } => TypeView::Conditional {
            check: Box::new(bound(*check, scope)),
            extends: Box::new(bound(*extends, scope)),
            truthy: Box::new(bound(*truthy, scope)),
            falsy: Box::new(bound(*falsy, scope)),
        },
        TypeView::Mapped { param, constraint, value } => TypeView::Mapped {
            param,
            constraint: Box::new(bound(*constraint, scope)),
            value: Box::new(bound(*value, scope + seq![param])),
        },
        TypeView::IndexedAccess { object, index } => TypeView::IndexedAccess {
            object: Box::new(bound(*object, scope)),
            index: Box::new(bound(*index, scope)),
        },
        TypeView::Generic { type_params, body } => TypeView::Generic {
            type_params,
            body: Box::new(bound(*body, scope + type_params)),
        },
    }
}

/// [`bound`] on every type of a sequence.
pub open spec fn bound_all(ts: Seq<TypeView>, scope: Seq<IdView>) -> Seq<TypeView>
    decreases ts,
{
    Seq::new(
        ts.len(),
        |i: int|
            if 0 <= i < ts.len() {
                bound(ts[i], scope)
            } else {
                TypeView::Keyword(Keyword::Any)
            },
    )
}

/// [`bound`] on the type of every member of a sequence.
pub open spec fn bound_members(ms: Seq<MemberView>, scope: Seq<IdView>) -> Seq<MemberView>
    decreases ms,
{
    Seq::new(
        ms.len(),
        |i: int|
            if 0 <= i < ms.len() {
                MemberView { ty: bound(ms[i].ty, scope), ..ms[i] }
            } else {
                MemberView { key: Seq::empty(), optional: false, ty: TypeView::Keyword(Keyword::Any) }
            },
    )
}

/// Whether `scope` holds `id`.
pub fn in_scope(scope: &Vec<Id>, id: &Id) -> (r: bool)
    ensures
        r == id_views(scope@).contains(id@),
{
    let mut i: usize = 0;
    while i < scope.len()
        invariant
            i <= scope.len(),
            forall|j: int| 0 <= j < i ==> id_views(scope@)[j] != id@,
        decreases scope.len() - i,
    {
        if scope[i].same(id) {
            assert(id_views(scope@)[i as int] == id@);
            return true;
        }
        i += 1;
    }
    false
}

/// The scope `scope` with the parameters `more` added to it.
pub fn widened(scope: &Vec<Id>, more: &Vec<Id>) -> (r: Vec<Id>)
    ensures
        id_views(r@) == id_views(scope@) + id_views(more@),
{
    let mut out = clone_ids(scope);
    let mut extra = clone_ids(more);
    let ghost a = id_views(out@);
    let ghost b = id_views(extra@);
    out.append(&mut extra);
    assert(id_views(out@) =~= a + b);
    out
}

/// [`bind_params`] on every type of a list.
pub fn bind_all(ts: &Vec<Type>, scope: &Vec<Id>) -> (r: Vec<Type>)
    ensures
        views(r@) == bound_all(views(ts@), id_views(scope@)),
    decreases ts,
{
    let mut out: Vec<Type> = Vec::new();
    let mut i: usize = 0;
    while i < ts.len()
        invariant
            i <= ts.len(),
            out.len() == i,
            forall|j: int| 0 <= j < i ==> out[j]@ == bound(ts[j]@, id_views(scope@)),
        decreases ts.len() - i,
    {
        out.push(bind_params(&ts[i], scope));
        i += 1;
    }
    assert(views(out@) =~= bound_all(views(ts@), id_views(scope@)));
    out
}

/// [`bind_params`] on the type of every member of a list.
pub fn bind_members(ms: &Vec<Member>, scope: &Vec<Id>) -> (r: Vec<Member>)
    ensures
        member_views(r@) == bound_members(member_views(ms@), id_views(scope@)),
    decreases ms,
{
    let mut out: Vec<Member> = Vec::new();
    let mut i: usize = 0;
    while i < ms.len()
        invariant
            i <= ms.len(),
            out.len() == i,
            forall|j: int|
                0 <= j < i ==> out[j]@ == (MemberView {
                    ty: bound(ms[j].ty@, id_views(scope@)),
                    ..ms[j]@
                }),
        decreases ms.len() - i,
    {
        let m = &ms[i];
        out.push(
            Member { key: m.key.clone(), optional: m.optional, ty: bind_params(&m.ty, scope) },
        );
        i += 1;
    }
    assert(member_views(out@) =~= bound_members(member_views(ms@), id_views(scope@)));
    out
}

/// The type `t` with its type parameters told apart from its references:
/// what the names of `scope`, and of the parameters that `t` declares
/// itself, stand for where `t` mentions them.
pub fn bind_params(t: &Type, scope: &Vec<Id>) -> (r: Type)
    ensures
        r@ == bound(t@, id_views(scope@)),
    decreases t,
{
    match t {
        Type::Keyword(k) => Type::Keyword(*k),
        Type::Lit(l) => Type::Lit(l.clone()),
        Type::Param(id) => Type::Param(id.clone()),
        Type::Ref { id, args } => {
            assert(views(args@).len() == args.len());
            if args.len() == 0 && in_scope(scope, id) {
                Type::Param(id.clone())
            } else {
                Type::Ref { id: id.clone(), args: bind_all(args, scope) }
            }
        },
        Type::Object { members } => Type::Object { members: bind_members(members, scope) },
        Type::Union(ts) => Type::Union(bind_all(ts, scope)),
        Type::Intersection(ts) => Type::Intersection(bind_all(ts, scope)),
        Type::Function { type_params, params, ret } => {
            let inner = widened(scope, type_params);
            Type::Function {
                type_params: clone_ids(type_params),
                params: bind_all(params, &inner),
                ret: Box::new(bind_params(&**ret, &inner)),
            }
        },
        Type::Conditional { check, extends, truthy, falsy } => Type::Conditional {
            check: Box::new(bind_params(&**check, scope)),
            extends: Box::new(bind_params(&**extends, scope)),
            truthy: Box::new(bind_params(&**truthy, scope)),
            falsy: Box::new(bind_params(&**falsy, scope)),
        },
        Type::Mapped { param, constraint, value } => {
            let mut own: Vec<Id> = Vec::new();
            own.push(param.clone());
            assert(id_views(own@) =~= seq![param@]);
            let inner = widened(scope, &own);
            Type::Mapped {
                param: param.clone(),
                constraint: Box::new(bind_params(&**constraint, scope)),
                value: Box::new(bind_params(&**value, &inner)),
            }
        },
        Type::IndexedAccess { object, index } => Type::IndexedAccess {
            object: Box::new(bind_params(&**object, scope)),
            index: Box::new(bind_params(&**index, scope)),
        },
        Type::Generic { type_params, body } => {
            let inner = widened(scope, type_params);
            Type::Generic {
                type_params: clone_ids(type_params),
                body: Box::new(bind_params(&**body, &inner)),
            }
        },
    }
}

impl PartialEq for Type {
    fn eq(&self, other: &Type) -> (r: bool) {
        self.same(other)
    }
}

impl Eq for Type {}

impl vstd::std_specs::cmp::PartialEqSpecImpl for Type {
    open spec fn obeys_eq_spec() -> bool {
        true
    }

    open spec fn eq_spec(&self, other: &Type) -> bool {
        self@ == other@
    }
}

impl PartialEq for Member {
    fn eq(&self, other: &Member) -> (r: bool) {
        self.key == other.key && self.optional == other.optional && self.ty.same(&other.ty)
    }
}

impl Eq for Member {}

impl vstd::std_specs::cmp::PartialEqSpecImpl for Member {
    open spec fn obeys_eq_spec() -> bool {
        true
    }

    open spec fn eq_spec(&self, other: &Member) -> bool {
        self@ == other@
    }
}

} // verus!
