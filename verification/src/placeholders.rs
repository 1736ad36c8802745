use vstd::prelude::*;
use crate::args::{CallArg, CallArgV, CallKeyword, CallKeywordV, args_view, keywords_view};
use crate::types::{Restriction, Ty, TyV, ty_view, tys_view, lemma_tys_view};

verus! {

/// The solver variables that occur in a type, in order of occurrence (depth first, left to
/// right), with repeats.
pub open spec fn ty_vars(t: TyV) -> Seq<nat>
    decreases t, 0nat,
{
    match t {
        TyV::Var(v) => seq![v],
        TyV::ClassType { targs, .. } => tys_vars(targs),
        TyV::Union(ms) => tys_vars(ms),
        TyV::TypeOf(b) => ty_vars(*b),
        TyV::Tuple(es) => tys_vars(es),
        TyV::UnboundedTuple(b) => ty_vars(*b),
        _ => Seq::empty(),
    }
}

/// The solver variables of each type of `s` in turn.
pub open spec fn tys_vars(s: Seq<TyV>) -> Seq<nat>
    decreases s, s.len(),
{
    if s.len() == 0 {
        Seq::empty()
    } else {
        ty_vars(s[0]) + tys_vars(s.subrange(1, s.len() as int))
    }
}

/// `acc` followed by the elements of `s` that are not already there, each once, in order
/// of first occurrence.
pub open spec fn add_new(acc: Seq<nat>, s: Seq<nat>) -> Seq<nat>
    decreases s.len(),
{
    if s.len() == 0 {
        acc
    } else {
        let acc1 = if acc.contains(s[0]) {
            acc
        } else {
            acc.push(s[0])
        };
        add_new(acc1, s.subrange(1, s.len() as int))
    }
}

/// The variables of every type a call's arguments carry: the object a method is called
/// on, then each positional argument, then each keyword argument.
pub open spec fn call_vars(self_obj: Option<TyV>, args: Seq<CallArgV>, kws: Seq<CallKeywordV>) -> Seq<nat> {
    (match self_obj {
        Some(t) => ty_vars(t),
        None => Seq::empty(),
    }) + tys_vars(args.map_values(|a: CallArgV| a.ty)) + tys_vars(kws.map_values(|k: CallKeywordV| k.ty))
}

pub open spec fn vars_view(v: Seq<u32>) -> Seq<nat> {
    v.map_values(|x: u32| x as nat)
}

proof fn lemma_add_new_append(acc: Seq<nat>, a: Seq<nat>, b: Seq<nat>)
    ensures
        add_new(acc, a + b) == add_new(add_new(acc, a), b),
    decreases a.len(),
{
    if a.len() > 0 {
        let acc1 = if acc.contains(a[0]) {
            acc
        } else {
            acc.push(a[0])
        };
        assert((a + b).subrange(1, (a + b).len() as int) =~= a.subrange(1, a.len() as int) + b);
        assert((a + b)[0] == a[0]);
        lemma_add_new_append(acc1, a.subrange(1, a.len() as int), b);
    } else {
        assert(a + b =~= b);
    }
}

proof fn lemma_tys_vars_push(s: Seq<TyV>, t: TyV)
    ensures
        tys_vars(s.push(t)) == tys_vars(s) + ty_vars(t),
    decreases s.len(),
{
    if s.len() == 0 {
        assert(s.push(t)[0] == t);
        assert(s.push(t).len() == 1);
        assert(s.push(t).subrange(1, 1) =~= Seq::<TyV>::empty());
        assert(tys_vars(Seq::<TyV>::empty()) == Seq::<nat>::empty());
        assert(tys_vars(s.push(t)) == ty_vars(t) + tys_vars(Seq::<TyV>::empty()));
        assert(ty_vars(t) + Seq::<nat>::empty() =~= ty_vars(t));
        assert(Seq::<nat>::empty() + ty_vars(t) =~= ty_vars(t));
    } else {
        let rest = s.subrange(1, s.len() as int);
        lemma_tys_vars_push(rest, t);
        assert(s.push(t).subrange(1, s.len() as int + 1) =~= rest.push(t));
        assert(s.push(t)[0] == s[0]);
        assert(tys_vars(s.push(t)) == ty_vars(s[0]) + tys_vars(rest.push(t)));
        assert(ty_vars(s[0]) + (tys_vars(rest) + ty_vars(t)) =~= (ty_vars(s[0]) + tys_vars(rest)) + ty_vars(t));
    }
}

/// Adds `v` to `acc` unless it is already there.
fn add_var(acc: &mut Vec<u32>, v: u32)
    ensures
        vars_view(final(acc)@) == add_new(vars_view(old(acc)@), seq![v as nat]),
{
    let ghost a = vars_view(acc@);
    let mut found = false;
    let mut i: usize = 0;
    while i < acc.len()
        invariant
            i <= acc@.len(),
            a == vars_view(acc@),
            found == exists|j: int| 0 <= j < i && acc@[j] == v,
        decreases acc.len() - i,
    {
        if acc[i] == v {
            found = true;
        }
        i = i + 1;
    }
    proof {
        let s = seq![v as nat];
        assert(s.subrange(1, 1) =~= Seq::<nat>::empty());
        let acc1 = if a.contains(v as nat) { a } else { a.push(v as nat) };
        assert(add_new(acc1, Seq::<nat>::empty()) == acc1);
        assert(add_new(a, s) == add_new(acc1, s.subrange(1, 1)));
        if found {
            let j = choose|j: int| 0 <= j < i && acc@[j] == v;
            assert(a[j] == v as nat);
        } else {
            assert forall|j: int| 0 <= j < a.len() implies a[j] != v as nat by {
                assert(acc@[j] != v);
            }
        }
    }
    if !found {
        acc.push(v);
        proof {
            assert(vars_view(acc@) =~= a.push(v as nat));
        }
    }
}

/// Adds the variables of `t` that `acc` lacks.
fn collect_ty(t: &Ty, acc: &mut Vec<u32>)
    ensures
        vars_view(final(acc)@) == add_new(vars_view(old(acc)@), ty_vars(t@)),
    decreases t, 1nat,
{
    match t {
        Ty::Var(v) => add_var(acc, *v),
        Ty::ClassType { targs, .. } => collect_tys(t, targs, acc),
        Ty::Union(ms) => collect_tys(t, ms, acc),
        Ty::TypeOf(b) => collect_ty(&**b, acc),
        Ty::Tuple(es) => collect_tys(t, es, acc),
        Ty::UnboundedTuple(b) => collect_ty(&**b, acc),
        _ => {},
    }
}

/// Adds the variables of each type of `v` (a list held by `parent`) in turn.
fn collect_tys(parent: &Ty, v: &Vec<Ty>, acc: &mut Vec<u32>)
    requires
        decreases_to!(*parent => v@),
    ensures
        vars_view(final(acc)@) == add_new(vars_view(old(acc)@), tys_vars(tys_view(v@))),
    decreases parent, 0nat,
{
    let ghost start = vars_view(acc@);
    let mut i: usize = 0;
    proof {
        lemma_tys_view(v@);
        assert(tys_view(v@).take(0) =~= Seq::<TyV>::empty());
    }
    while i < v.len()
        invariant
            i <= v@.len(),
            decreases_to!(*parent => v@),
            tys_view(v@).len() == v@.len(),
            forall|j: int| 0 <= j < v@.len() ==> #[trigger] tys_view(v@)[j] == ty_view(v@[j]),
            vars_view(acc@) == add_new(start, tys_vars(tys_view(v@).take(i as int))),
        decreases v.len() - i,
    {
        let ghost before = vars_view(acc@);
        proof {
            assert(decreases_to!(v@ => v@[i as int]));
        }
        collect_ty(&v[i], acc);
        proof {
            let tv = tys_view(v@);
            assert(tv.take(i + 1) =~= tv.take(i as int).push(tv[i as int]));
            lemma_tys_vars_push(tv.take(i as int), tv[i as int]);
            lemma_add_new_append(start, tys_vars(tv.take(i as int)), ty_vars(tv[i as int]));
        }
        i = i + 1;
    }
    proof {
        assert(tys_view(v@).take(i as int) =~= tys_view(v@));
    }
}

/// The types of the arguments, in order.
pub open spec fn arg_types(args: Seq<CallArgV>) -> Seq<TyV> {
    args.map_values(|a: CallArgV| a.ty)
}

/// Collects the solver variables that occur in the object a method is called on and in the
/// types of the arguments, each once, in order of first occurrence. These are saved and
/// restored around each overload's evaluation, so that a failed overload does not pin them.
pub fn collect_placeholder_vars(
    self_obj: Option<&Ty>,
    args: &Vec<CallArg>,
    keywords: &Vec<CallKeyword>,
) -> (r: Vec<u32>)
    ensures
        vars_view(r@) == add_new(
            Seq::empty(),
            call_vars(
                match self_obj {
                    Some(t) => Some(t@),
                    None => None,
                },
                args_view(args@),
                keywords_view(keywords@),
            ),
        ),
{
    let mut placeholder_vars: Vec<u32> = Vec::new();
    let ghost so = match self_obj {
        Some(t) => ty_vars(t@),
        None => Seq::<nat>::empty(),
    };
    proof {
        assert(vars_view(placeholder_vars@) =~= Seq::<nat>::empty());
    }
    match self_obj {
        Some(obj) => collect_ty(obj, &mut placeholder_vars),
        None => {},
    }
    assert(vars_view(placeholder_vars@) == add_new(Seq::empty(), so));
    let ghost av = args_view(args@).map_values(|a: CallArgV| a.ty);
    let mut i: usize = 0;
    while i < args.len()
        invariant
            i <= args@.len(),
            av == args_view(args@).map_values(|a: CallArgV| a.ty),
            vars_view(placeholder_vars@) == add_new(Seq::empty(), so + tys_vars(av.take(i as int))),
        decreases args.len() - i,
    {
        proof {
            assert(av[i as int] == args@[i as int]@.ty) by {
                assert(args_view(args@)[i as int] == args@[i as int]@);
            }
        }
        let ghost before = vars_view(placeholder_vars@);
        match &args[i] {
            CallArg::Arg(v) => collect_ty(&v.ty, &mut placeholder_vars),
            CallArg::Star(v, _) => collect_ty(&v.ty, &mut placeholder_vars),
        }
        proof {
            assert(av.take(i + 1) =~= av.take(i as int).push(av[i as int]));
            lemma_tys_vars_push(av.take(i as int), av[i as int]);
            lemma_add_new_append(Seq::empty(), so, tys_vars(av.take(i as int)));
            lemma_add_new_append(Seq::empty(), so, tys_vars(av.take(i + 1)));
            lemma_add_new_append(add_new(Seq::empty(), so), tys_vars(av.take(i as int)), ty_vars(av[i as int]));
        }
        i = i + 1;
    }
    proof {
        assert(av.take(i as int) =~= av);
    }
    let ghost kvs = keywords_view(keywords@).map_values(|k: CallKeywordV| k.ty);
    let ghost prefix = so + tys_vars(av);
    let mut j: usize = 0;
    while j < keywords.len()
        invariant
            j <= keywords@.len(),
            kvs == keywords_view(keywords@).map_values(|k: CallKeywordV| k.ty),
            vars_view(placeholder_vars@) == add_new(Seq::empty(), prefix + tys_vars(kvs.take(j as int))),
        decreases keywords.len() - j,
    {
        proof {
            assert(kvs[j as int] == keywords@[j as int].value.ty@) by {
                assert(keywords_view(keywords@)[j as int] == keywords@[j as int]@);
            }
        }
        collect_ty(&keywords[j].value.ty, &mut placeholder_vars);
        proof {
            assert(kvs.take(j + 1) =~= kvs.take(j as int).push(kvs[j as int]));
            lemma_tys_vars_push(kvs.take(j as int), kvs[j as int]);
            lemma_add_new_append(Seq::empty(), prefix, tys_vars(kvs.take(j as int)));
            lemma_add_new_append(Seq::empty(), prefix, tys_vars(kvs.take(j + 1)));
            lemma_add_new_append(add_new(Seq::empty(), prefix), tys_vars(kvs.take(j as int)), ty_vars(kvs[j as int]));
        }
        j = j + 1;
    }
    proof {
        assert(kvs.take(j as int) =~= kvs);
    }
    placeholder_vars
}

} // verus!
