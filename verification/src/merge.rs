//! Declaration merging: how a further declaration joins the candidates that
//! an identifier already has.
//!
//! Two object shapes merge into one shape that has the members of both, and
//! so do two generic object shapes with the same number of type parameters.
//! Two function signatures stand side by side as overloads. Every other pair
//! is a redeclaration: the earlier candidates stay as they are.
use vstd::prelude::*;
use crate::id::{Id, IdView};
use crate::ty::{
    id_views, member_views, subst_members, substitute_members, views, Member, Type, TypeView,
};

verus! {

/// The type parameters `ps`, each as the type that mentions it.
pub open spec fn as_params(ps: Seq<IdView>) -> Seq<TypeView> {
    Seq::new(ps.len(), |i: int| TypeView::Param(ps[i]))
}

/// The type parameters `ps`, each as the type that mentions it.
pub fn params_as_types(ps: &Vec<Id>) -> (r: Vec<Type>)
    ensures
        views(r@) == as_params(id_views(ps@)),
{
    let mut out: Vec<Type> = Vec::new();
    let mut i: usize = 0;
    while i < ps.len()
        invariant
            i <= ps.len(),
            out.len() == i,
            forall|j: int| 0 <= j < i ==> out[j]@ == TypeView::Param(ps[j]@),
        decreases ps.len() - i,
    {
        out.push(Type::Param(ps[i].clone()));
        i += 1;
    }
    assert(views(out@) =~= as_params(id_views(ps@)));
    out
}

/// The one candidate that `last` and `t` merge into, or `None` where they
/// stay apart. The type parameters of a merged generic shape are those of
/// the earlier declaration: the later one is rewritten to speak of them.
pub open spec fn joined(last: TypeView, t: TypeView) -> Option<TypeView> {
    match (last, t) {
        (TypeView::Object { members: m1 }, TypeView::Object { members: m2 }) => Some(
            TypeView::Object { members: m1 + m2 },
        ),
        (
            TypeView::Generic { type_params: pa, body: b1 },
            TypeView::Generic { type_params: pb, body: b2 },
        ) => match (*b1, *b2) {
            (TypeView::Object { members: m1 }, TypeView::Object { members: m2 }) => if pa.len()
                == pb.len() {
                Some(
                    TypeView::Generic {
                        type_params: pa,
                        body: Box::new(
                            TypeView::Object {
                                members: m1 + subst_members(m2, pb, as_params(pa)),
                            },
                        ),
                    },
                )
            } else {
                None
            },
            _ => None,
        },
        _ => None,
    }
}

/// The candidates after `t` joined `candidates`, or `None` where `t` cannot
/// merge with them.
pub open spec fn merged_with(candidates: Seq<TypeView>, t: TypeView) -> Option<Seq<TypeView>> {
    if candidates.len() == 0 {
        Some(seq![t])
    } else if candidates.last() is Function && t is Function {
        Some(candidates.push(t))
    } else {
        match joined(candidates.last(), t) {
            Some(j) => Some(candidates.drop_last().push(j)),
            None => None,
        }
    }
}

fn append_members(first: Vec<Member>, second: Vec<Member>) -> (r: Vec<Member>)
    ensures
        member_views(r@) == member_views(first@) + member_views(second@),
{
    let ghost v1 = member_views(first@);
    let ghost v2 = member_views(second@);
    let mut first = first;
    let mut second = second;
    first.append(&mut second);
    assert(member_views(first@) =~= v1 + v2);
    first
}

/// Merges `last` and `t` into one candidate where they merge, and hands both
/// back where they do not.
fn join(last: Type, t: Type) -> (r: Result<Type, (Type, Type)>)
    ensures
        match joined(last@, t@) {
            Some(j) => r.is_ok() && r.unwrap()@ == j,
            None => r.is_err() && r.unwrap_err().0@ == last@ && r.unwrap_err().1@ == t@,
        },
{
    match (last, t) {
        (Type::Object { members: m1 }, Type::Object { members: m2 }) => Ok(
            Type::Object { members: append_members(m1, m2) },
        ),
        (
            Type::Generic { type_params: pa, body: b1 },
            Type::Generic { type_params: pb, body: b2 },
        ) => {
            if pa.len() == pb.len() && b1.is_object() && b2.is_object() {
                assert(id_views(pa@).len() == pa.len() && id_views(pb@).len() == pb.len());
                match (*b1, *b2) {
                    (Type::Object { members: m1 }, Type::Object { members: m2 }) => {
                        let ghost v1 = member_views(m1@);
                        let ghost v2 = member_views(m2@);
                        assert((Type::Object { members: m1 })@ == TypeView::Object { members: v1 });
                        assert((Type::Object { members: m2 })@ == TypeView::Object { members: v2 });
                        let renamed = substitute_members(&m2, &pb, &params_as_types(&pa));
                        let shape = Type::Object { members: append_members(m1, renamed) };
                        assert(shape@ == TypeView::Object {
                            members: v1 + subst_members(
                                v2,
                                id_views(pb@),
                                as_params(id_views(pa@)),
                            ),
                        });
                        Ok(Type::Generic { type_params: pa, body: Box::new(shape) })
                    },
                    (x, y) => Err(
                        (
                            Type::Generic { type_params: pa, body: Box::new(x) },
                            Type::Generic { type_params: pb, body: Box::new(y) },
                        ),
                    ),
                }
            } else {
                assert(id_views(pa@).len() == pa.len() && id_views(pb@).len() == pb.len());
                Err(
                    (
                        Type::Generic { type_params: pa, body: b1 },
                        Type::Generic { type_params: pb, body: b2 },
                    ),
                )
            }
        },
        (x, y) => Err((x, y)),
    }
}

/// Lets `t` join `candidates` where the two merge, and says whether it did.
pub fn merge_into(candidates: &mut Vec<Type>, t: Type) -> (accepted: bool)
    ensures
        accepted == merged_with(views(old(candidates)@), t@).is_some(),
        accepted ==> views(final(candidates)@) == merged_with(views(old(candidates)@), t@).unwrap(),
        !accepted ==> views(final(candidates)@) == views(old(candidates)@),
{
    let n = candidates.len();
    let ghost before = views(candidates@);
    let ghost tv = t@;
    if n == 0 {
        candidates.push(t);
        assert(views(candidates@) =~= seq![tv]);
        return true;
    }
    assert(before.last() == candidates[n - 1]@);
    if candidates[n - 1].is_function() && t.is_function() {
        candidates.push(t);
        assert(views(candidates@) =~= before.push(tv));
        return true;
    }
    match candidates.pop() {
        Some(last) => {
            assert(views(candidates@) =~= before.drop_last());
            match join(last, t) {
                Ok(j) => {
                    let ghost jv = j@;
                    candidates.push(j);
                    assert(views(candidates@) =~= before.drop_last().push(jv));
                    true
                },
                Err((x, _)) => {
                    candidates.push(x);
                    assert(views(candidates@) =~= before);
                    false
                },
            }
        },
        None => false,
    }
}

} // verus!
