use vstd::prelude::*;
use itertools::Itertools;
use crate::types::{Lit, LitV, Restriction, RestrictionV, Ty, TyV, ty_view, tys_view, lit_view, lemma_tys_view, copy_tys};

verus! {

/// The most argument lists (and the most tuple members) that expansion produces.
pub const EXPANSION_LIMIT: usize = 100;

/// Every sequence `[x] + r` for `r` in `rs`, in order.
pub open spec fn prepend_all<A>(x: A, rs: Seq<Seq<A>>) -> Seq<Seq<A>> {
    rs.map_values(|r: Seq<A>| seq![x] + r)
}

/// For each `x` of `xs` in order, every `[x] + r` for `r` in `rs`.
pub open spec fn cross<A>(xs: Seq<A>, rs: Seq<Seq<A>>) -> Seq<Seq<A>>
    decreases xs.len(),
{
    if xs.len() == 0 {
        Seq::empty()
    } else {
        prepend_all(xs[0], rs) + cross(xs.subrange(1, xs.len() as int), rs)
    }
}

/// The cartesian product of `ls`, in lexicographic order (the last position varies fastest).
/// The product of no sequences holds one empty sequence.
pub open spec fn cartesian<A>(ls: Seq<Seq<A>>) -> Seq<Seq<A>>
    decreases ls.len(),
{
    if ls.len() == 0 {
        seq![Seq::empty()]
    } else {
        cross(ls[0], cartesian(ls.subrange(1, ls.len() as int)))
    }
}

/// The product of the lengths of `ls`.
pub open spec fn product_of_lens<A>(ls: Seq<Seq<A>>) -> int
    decreases ls.len(),
{
    if ls.len() == 0 {
        1
    } else {
        product_of_lens(ls.drop_last()) * ls.last().len()
    }
}

pub open spec fn is_builtin_bool(module: Seq<char>, name: Seq<char>) -> bool {
    module == "builtins"@ && name == "bool"@
}

/// The types that a value of type `t` is split into by argument type expansion; empty when
/// `t` does not expand.
///
/// A union splits into its members; `bool` into `Literal[True]` and `Literal[False]`; an
/// enum class into the literal types of its members; `type[A | B]` into `type[A]`, `type[B]`;
/// a constrained type variable into its constraints; a tuple of known length into the
/// tuples of the product of its members' expansions (a member that does not expand stands
/// for itself), provided some member expands and the product has at most
/// [`EXPANSION_LIMIT`] tuples.
pub open spec fn expansion(t: TyV) -> Seq<TyV>
    decreases t, 1nat,
{
    match t {
        TyV::Union(ms) => ms,
        TyV::ClassType { module, name, targs, enum_members } => {
            if is_builtin_bool(module, name) {
                seq![TyV::Literal(LitV::Bool(true)), TyV::Literal(LitV::Bool(false))]
            } else {
                match enum_members {
                    Some(ms) => ms.map_values(|l: LitV| TyV::Literal(l)),
                    None => Seq::empty(),
                }
            }
        },
        TyV::TypeOf(inner) => match *inner {
            TyV::Union(ms) => ms.map_values(|m: TyV| TyV::TypeOf(Box::new(m))),
            _ => Seq::empty(),
        },
        TyV::Tuple(es) => tuple_expansion(es, member_expansions(es)),
        TyV::Quantified { name, restriction } => match restriction {
            RestrictionV::Constraints(cs) => cs,
            _ => Seq::empty(),
        },
        _ => Seq::empty(),
    }
}

/// The expansion of each member of `es`.
pub open spec fn member_expansions(es: Seq<TyV>) -> Seq<Seq<TyV>>
    decreases es, es.len(),
{
    if es.len() == 0 {
        Seq::empty()
    } else {
        seq![expansion(es[0])] + member_expansions(es.subrange(1, es.len() as int))
    }
}

/// What a tuple member contributes to the product: its expansion, or itself if it has none.
pub open spec fn member_choices(es: Seq<TyV>, exps: Seq<Seq<TyV>>) -> Seq<Seq<TyV>> {
    Seq::new(es.len(), |i: int| if exps[i].len() == 0 { seq![es[i]] } else { exps[i] })
}

pub open spec fn tuple_expansion(es: Seq<TyV>, exps: Seq<Seq<TyV>>) -> Seq<TyV> {
    let choices = member_choices(es, exps);
    if (exists|i: int| 0 <= i < es.len() && #[trigger] exps[i].len() > 0)
        && product_of_lens(choices) <= EXPANSION_LIMIT {
        cartesian(choices).map_values(|x: Seq<TyV>| TyV::Tuple(x))
    } else {
        Seq::empty()
    }
}

pub open spec fn ty_lists_view(s: Seq<Vec<Ty>>) -> Seq<Seq<TyV>> {
    s.map_values(|v: Vec<Ty>| tys_view(v@))
}

/// The cartesian product of `lists` (see [`cartesian`]), computed by
/// `Itertools::multi_cartesian_product`: every choice of one item from each list, the last
/// list varying fastest, and one empty choice when there are no lists. Its items are clones,
/// made by `Ty`'s `Clone`, which keeps a type's view.
#[verifier::external_body]
fn cartesian_product(lists: Vec<Vec<Ty>>) -> (r: Vec<Vec<Ty>>)
    ensures
        ty_lists_view(r@) == cartesian(ty_lists_view(lists@)),
{
    lists.into_iter().multi_cartesian_product().collect()
}

proof fn lemma_member_expansions(es: Seq<TyV>)
    ensures
        member_expansions(es).len() == es.len(),
        forall|i: int| 0 <= i < es.len() ==> #[trigger] member_expansions(es)[i] == expansion(es[i]),
    decreases es.len(),
{
    if es.len() > 0 {
        let rest = es.subrange(1, es.len() as int);
        lemma_member_expansions(rest);
        assert forall|i: int| 0 <= i < es.len() implies #[trigger] member_expansions(es)[i] == expansion(es[i]) by {
            if i > 0 {
                assert(rest[i - 1] == es[i]);
            }
        }
    }
}

/// With every length at least one, a prefix's product is at most the whole product.
proof fn lemma_product_prefix<A>(ls: Seq<Seq<A>>, j: int)
    requires
        0 <= j <= ls.len(),
        forall|i: int| 0 <= i < ls.len() ==> #[trigger] ls[i].len() >= 1,
    ensures
        1 <= product_of_lens(ls.take(j)) <= product_of_lens(ls),
    decreases ls.len(),
{
    if ls.len() > 0 {
        let init = ls.drop_last();
        if j == ls.len() {
            assert(ls.take(j) =~= ls);
            lemma_product_prefix(init, j - 1);
            assert(init.take(j - 1) =~= init);
        } else {
            lemma_product_prefix(init, j);
            assert(init.take(j) =~= ls.take(j));
        }
        let a = product_of_lens(init);
        let b = ls.last().len() as int;
        assert(a * b >= a) by (nonlinear_arith)
            requires
                a >= 1,
                b >= 1,
        ;
    } else {
        assert(ls.take(j) =~= ls);
    }
}

/// Splits `ty` by argument type expansion (see [`expansion`]).
pub fn expand_type(ty: &Ty) -> (r: Vec<Ty>)
    ensures
        tys_view(r@) == expansion(ty@),
    decreases ty, 1nat,
{
    match ty {
        Ty::Union(ms) => copy_tys(ms),
        Ty::ClassType { module, name, targs, enum_members } => {
            let builtins = String::from_str("builtins");
            let bool_name = String::from_str("bool");
            proof {
                reveal_strlit("builtins");
                reveal_strlit("bool");
            }
            if *module == builtins && *name == bool_name {
                let mut r: Vec<Ty> = Vec::new();
                r.push(Ty::Literal(Lit::Bool(true)));
                r.push(Ty::Literal(Lit::Bool(false)));
                proof {
                    lemma_tys_view(r@);
                    assert(tys_view(r@) =~= expansion(ty@));
                }
                r
            } else {
                match enum_members {
                    Some(members) => {
                        let mut r: Vec<Ty> = Vec::new();
                        let mut i: usize = 0;
                        while i < members.len()
                            invariant
                                i <= members.len(),
                                r@.len() == i,
                                forall|j: int| 0 <= j < i ==> ty_view(#[trigger] r@[j]) == TyV::Literal(
                                    lit_view(members@[j]),
                                ),
                            decreases members.len() - i,
                        {
                            r.push(Ty::Literal(members[i].copy()));
                            i = i + 1;
                        }
                        proof {
                            lemma_tys_view(r@);
                            assert(tys_view(r@) =~= expansion(ty@));
                        }
                        r
                    },
                    None => {
                        let r: Vec<Ty> = Vec::new();
                        proof {
                            assert(tys_view(r@) =~= expansion(ty@));
                        }
                        r
                    },
                }
            }
        },
        Ty::TypeOf(inner) => match &**inner {
            Ty::Union(ms) => {
                let mut r: Vec<Ty> = Vec::new();
                let mut i: usize = 0;
                proof { lemma_tys_view(ms@); }
                while i < ms.len()
                    invariant
                        i <= ms.len(),
                        r@.len() == i,
                        tys_view(ms@).len() == ms@.len(),
                        forall|j: int| 0 <= j < ms@.len() ==> #[trigger] tys_view(ms@)[j] == ty_view(ms@[j]),
                        forall|j: int| 0 <= j < i ==> ty_view(#[trigger] r@[j]) == TyV::TypeOf(
                            Box::new(ty_view(ms@[j])),
                        ),
                    decreases ms.len() - i,
                {
                    r.push(Ty::TypeOf(Box::new(ms[i].deep_copy())));
                    i = i + 1;
                }
                proof {
                    lemma_tys_view(r@);
                    assert(ty@ == TyV::TypeOf(Box::new(ty_view(**inner))));
                    assert(ty_view(**inner) == TyV::Union(tys_view(ms@)));
                    assert(tys_view(r@) =~= expansion(ty@));
                }
                r
            },
            _ => {
                let r: Vec<Ty> = Vec::new();
                proof {
                    assert(ty@ == TyV::TypeOf(Box::new(ty_view(**inner))));
                    assert(!(ty_view(**inner) is Union));
                    assert(tys_view(r@) =~= expansion(ty@));
                }
                r
            },
        },
        Ty::Tuple(_) => expand_tuple(ty),
        Ty::Quantified { name, restriction } => match restriction {
            Restriction::Constraints(cs) => copy_tys(cs),
            _ => {
                let r: Vec<Ty> = Vec::new();
                proof {
                    assert(tys_view(r@) =~= expansion(ty@));
                }
                r
            },
        },
        _ => {
            let r: Vec<Ty> = Vec::new();
            proof {
                assert(tys_view(r@) =~= expansion(ty@));
            }
            r
        },
    }
}

fn expand_tuple(ty: &Ty) -> (r: Vec<Ty>)
    requires
        ty is Tuple,
    ensures
        tys_view(r@) == expansion(ty@),
    decreases ty, 0nat,
{
    let elements = match ty {
        Ty::Tuple(es) => es,
        _ => {
            return Vec::new();
        },
    };
    let ghost es = tys_view(elements@);
    let ghost exps = member_expansions(es);
    let ghost choices = member_choices(es, exps);
    proof {
        lemma_tys_view(elements@);
        lemma_member_expansions(es);
    }
    let mut count: usize = 1;
    let mut changed = false;
    let mut element_expansions: Vec<Vec<Ty>> = Vec::new();
    let mut i: usize = 0;
    while i < elements.len()
        invariant
            i <= elements.len(),
            es == tys_view(elements@),
            es.len() == elements@.len(),
            forall|j: int| 0 <= j < es.len() ==> #[trigger] es[j] == ty_view(elements@[j]),
            exps == member_expansions(es),
            exps.len() == es.len(),
            forall|j: int| 0 <= j < es.len() ==> #[trigger] exps[j] == expansion(es[j]),
            choices == member_choices(es, exps),
            choices.len() == es.len(),
            element_expansions@.len() == i,
            ty_lists_view(element_expansions@) == choices.take(i as int),
            count as int == product_of_lens(choices.take(i as int)),
            count <= EXPANSION_LIMIT,
            changed == (exists|j: int| 0 <= j < i && #[trigger] exps[j].len() > 0),
            *ty == Ty::Tuple(*elements),
        decreases elements.len() - i,
    {
        let e = &elements[i];
        proof {
            assert(*elements == ty->Tuple_0);
            assert(decreases_to!(*ty => ty->Tuple_0));
            assert(decreases_to!(*elements => elements@));
            assert(decreases_to!(elements@ => elements@[i as int]));
        }
        let element_expansion = expand_type(e);
        let ghost prev = element_expansions@;
        proof {
            lemma_tys_view(element_expansion@);
        }
        if element_expansion.len() == 0 {
            let mut single: Vec<Ty> = Vec::new();
            single.push(e.deep_copy());
            proof {
                lemma_tys_view(single@);
                assert(tys_view(single@) =~= choices[i as int]);
            }
            element_expansions.push(single);
            proof {
                assert(choices.take(i + 1).drop_last() =~= choices.take(i as int));
                assert(choices.take(i + 1).last() == choices[i as int]);
                assert(choices[i as int].len() == 1);
                assert(product_of_lens(choices.take(i + 1)) == product_of_lens(choices.take(i as int)) * 1);
                assert(count as int == product_of_lens(choices.take(i + 1)));
            }
        } else {
            let len = element_expansion.len();
            let ghost old_count = count;
            count = match count.checked_mul(len) {
                Some(c) => c,
                None => usize::MAX,
            };
            proof {
                assert(choices.take(i + 1).drop_last() =~= choices.take(i as int));
                assert(choices.take(i + 1).last() == choices[i as int]);
                assert(choices[i as int] == exps[i as int]);
                assert(tys_view(element_expansion@) == exps[i as int]);
            }
            if count > EXPANSION_LIMIT {
                proof {
                    assert forall|j: int| 0 <= j < choices.len() implies #[trigger] choices[j].len() >= 1 by {}
                    lemma_product_prefix(choices, i + 1);
                    if old_count * len <= usize::MAX {
                        assert(product_of_lens(choices.take(i + 1)) == old_count * len);
                    } else {
                        assert(product_of_lens(choices.take(i + 1)) == old_count * len);
                    }
                    assert(!(product_of_lens(choices) <= EXPANSION_LIMIT));
                }
                let none: Vec<Ty> = Vec::new();
                proof {
                    assert(tys_view(none@) =~= expansion(ty@));
                }
                return none;
            }
            changed = true;
            element_expansions.push(element_expansion);
            proof {
                assert(product_of_lens(choices.take(i + 1)) == old_count * len);
                assert(count as int == product_of_lens(choices.take(i + 1)));
            }
        }
        proof {
            assert(ty_lists_view(element_expansions@) =~= choices.take(i + 1));
        }
        i = i + 1;
    }
    proof {
        assert(choices.take(i as int) =~= choices);
    }
    if count <= EXPANSION_LIMIT && changed {
        let product = cartesian_product(element_expansions);
        let mut r: Vec<Ty> = Vec::new();
        let mut k: usize = 0;
        while k < product.len()
            invariant
                k <= product.len(),
                r@.len() == k,
                forall|j: int| 0 <= j < k ==> ty_view(#[trigger] r@[j]) == TyV::Tuple(
                    tys_view(product@[j]@),
                ),
            decreases product.len() - k,
        {
            r.push(Ty::Tuple(copy_tys(&product[k])));
            k = k + 1;
        }
        proof {
            lemma_tys_view(r@);
            assert(tys_view(r@) =~= expansion(ty@));
        }
        r
    } else {
        let none: Vec<Ty> = Vec::new();
        proof {
            assert(tys_view(none@) =~= expansion(ty@));
        }
        none
    }
}

proof fn lemma_cross_len<A>(xs: Seq<A>, rs: Seq<Seq<A>>)
    ensures
        cross(xs, rs).len() == xs.len() * rs.len(),
    decreases xs.len(),
{
    if xs.len() > 0 {
        lemma_cross_len(xs.subrange(1, xs.len() as int), rs);
        let a = xs.len() as int;
        let b = rs.len() as int;
        assert(b + (a - 1) * b == a * b) by (nonlinear_arith);
    }
}

proof fn lemma_product_first<A>(ls: Seq<Seq<A>>)
    requires
        ls.len() >= 1,
    ensures
        product_of_lens(ls) == ls[0].len() * product_of_lens(ls.subrange(1, ls.len() as int)),
    decreases ls.len(),
{
    let rest = ls.subrange(1, ls.len() as int);
    if ls.len() == 1 {
        assert(ls.drop_last() =~= Seq::<Seq<A>>::empty());
        assert(rest =~= Seq::<Seq<A>>::empty());
    } else {
        let init = ls.drop_last();
        lemma_product_first(init);
        assert(rest.drop_last() =~= init.subrange(1, init.len() as int));
        assert(rest.last() == ls.last());
        assert(init[0] == ls[0]);
        let a = ls[0].len() as int;
        let p = product_of_lens(init.subrange(1, init.len() as int));
        let l = ls.last().len() as int;
        assert((a * p) * l == a * (p * l)) by (nonlinear_arith);
    }
}

proof fn lemma_cartesian_len<A>(ls: Seq<Seq<A>>)
    ensures
        cartesian(ls).len() == product_of_lens(ls),
    decreases ls.len(),
{
    if ls.len() > 0 {
        let rest = ls.subrange(1, ls.len() as int);
        lemma_cartesian_len(rest);
        lemma_cross_len(ls[0], cartesian(rest));
        lemma_product_first(ls);
    }
}

/// Expanding a tuple yields at most [`EXPANSION_LIMIT`] tuples.
pub proof fn lemma_tuple_expansion_bounded(t: TyV)
    requires
        t is Tuple,
    ensures
        expansion(t).len() <= EXPANSION_LIMIT,
{
    let es = t->Tuple_0;
    let exps = member_expansions(es);
    let choices = member_choices(es, exps);
    lemma_cartesian_len(choices);
}

/// A type variable is expanded only through its constraints: a constrained type variable
/// expands into exactly its constraints, in order, while one with an upper bound (whatever
/// the bound, a union included) or with no restriction does not expand at all.
pub proof fn lemma_type_variable_expansion(name: Seq<char>, bound: TyV, constraints: Seq<TyV>)
    ensures
        expansion(TyV::Quantified { name, restriction: RestrictionV::Bound(Box::new(bound)) }).len() == 0,
        expansion(TyV::Quantified { name, restriction: RestrictionV::Unrestricted }).len() == 0,
        expansion(TyV::Quantified { name, restriction: RestrictionV::Constraints(constraints) }) == constraints,
{
}

} // verus!
