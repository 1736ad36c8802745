use overload_eval::args::{CallArg, CallKeyword, TextRange, TypedValue};
use overload_eval::arity::{arity_mismatch_size, checked_arity_mismatch_size, ArgCount, ArgCounts};
use overload_eval::call::{
    result_value, CallAction, CallOutcome, CallPhase, CallResult, CallValue, OverloadCall, OverloadSignature,
};
use overload_eval::expand::expand_type;
use overload_eval::expander::{ArgIdx, ArgsExpander};
use overload_eval::gas::Gas;
use overload_eval::placeholders::collect_placeholder_vars;
use overload_eval::search::{
    should_materialize, ClosestOverloadSearch, OverloadParams, ResultSource, SearchAction, SearchPhase,
};
use overload_eval::types::{Lit, Restriction, Ty};
use vec1::Vec1;

// ---------------------------------------------------------------------------------------
// Building types and arguments.

fn class(name: &str) -> Ty {
    Ty::ClassType { module: "builtins".to_string(), name: name.to_string(), targs: vec![], enum_members: None }
}

fn int_() -> Ty {
    class("int")
}

fn str_() -> Ty {
    class("str")
}

fn bool_() -> Ty {
    class("bool")
}

fn none() -> Ty {
    Ty::Other("None".to_string())
}

fn lit_bool(b: bool) -> Ty {
    Ty::Literal(Lit::Bool(b))
}

fn enum_e(members: &[&str]) -> Ty {
    Ty::ClassType {
        module: "m".to_string(),
        name: "E".to_string(),
        targs: vec![],
        enum_members: Some(members.iter().map(|m| Lit::EnumMember("E".to_string(), m.to_string())).collect()),
    }
}

fn show(t: &Ty) -> String {
    format!("{:?}", t)
}

fn shows(ts: &[Ty]) -> Vec<String> {
    ts.iter().map(show).collect()
}

fn range(start: u32, end: u32) -> TextRange {
    TextRange { start, end }
}

fn arg(ty: Ty, at: u32) -> CallArg {
    CallArg::Arg(TypedValue { ty, range: range(at, at + 1) })
}

fn star(ty: Ty, at: u32) -> CallArg {
    CallArg::Star(TypedValue { ty, range: range(at + 1, at + 2) }, range(at, at + 2))
}

fn kw(name: &str, ty: Ty, at: u32) -> CallKeyword {
    CallKeyword { range: range(at, at + 3), arg: Some(name.to_string()), value: TypedValue { ty, range: range(at + 2, at + 3) } }
}

fn kwargs(ty: Ty, at: u32) -> CallKeyword {
    CallKeyword { range: range(at, at + 3), arg: None, value: TypedValue { ty, range: range(at + 2, at + 3) } }
}

fn count(min: usize, max: Option<usize>) -> ArgCount {
    ArgCount { min, max }
}

fn counts(positional: ArgCount, keyword: ArgCount, overall: ArgCount) -> ArgCounts {
    ArgCounts { positional, keyword, overall }
}

/// A signature `(x, /)` taking exactly `n` positional arguments.
fn positional_counts(n: usize) -> ArgCounts {
    counts(count(n, Some(n)), count(0, Some(0)), count(n, Some(n)))
}

// ---------------------------------------------------------------------------------------
// Gas.

#[test]
fn gas_runs_out_at_zero() {
    let mut g = Gas::new(2);
    assert!(!g.stop());
    assert!(g.stop());
    assert!(g.stop());
}

// ---------------------------------------------------------------------------------------
// Arity.

#[test]
fn arity_fits_exactly() {
    let c = counts(count(1, Some(2)), count(0, Some(2)), count(1, Some(2)));
    assert_eq!(arity_mismatch_size(&c, false, &vec![arg(int_(), 0)], &vec![]), 0);
    assert_eq!(arity_mismatch_size(&c, false, &vec![arg(int_(), 0), arg(int_(), 2)], &vec![]), 0);
}

#[test]
fn arity_too_many_counts_twice() {
    // Three positional arguments against at most two: one too many positionally and overall.
    let c = counts(count(1, Some(2)), count(0, Some(2)), count(1, Some(2)));
    let args = vec![arg(int_(), 0), arg(int_(), 2), arg(int_(), 4)];
    assert_eq!(arity_mismatch_size(&c, false, &args, &vec![]), 2);
}

#[test]
fn arity_checked_overflow() {
    let c = counts(count(usize::MAX, None), count(usize::MAX, None), count(usize::MAX, None));
    assert_eq!(checked_arity_mismatch_size(&c, false, &vec![], &vec![]), None);
    let d = counts(count(1, Some(1)), count(0, Some(0)), count(1, Some(1)));
    assert_eq!(checked_arity_mismatch_size(&d, false, &vec![], &vec![]), Some(2));
}

#[test]
fn arity_too_few() {
    let c = counts(count(2, Some(2)), count(0, Some(0)), count(2, Some(2)));
    assert_eq!(arity_mismatch_size(&c, false, &vec![], &vec![]), 4);
}

#[test]
fn arity_self_counts_as_positional() {
    let c = counts(count(2, Some(2)), count(0, Some(0)), count(2, Some(2)));
    assert_eq!(arity_mismatch_size(&c, true, &vec![arg(int_(), 0)], &vec![]), 0);
    assert_eq!(arity_mismatch_size(&c, false, &vec![arg(int_(), 0)], &vec![]), 2);
}

#[test]
fn arity_unpacked_waives_minimum() {
    // `f(*xs)` may supply any number of positional arguments, but is not counted.
    let c = counts(count(2, Some(3)), count(0, Some(0)), count(2, Some(3)));
    assert_eq!(arity_mismatch_size(&c, false, &vec![star(int_(), 0)], &vec![]), 0);
    // Unpacked keywords waive the keyword minimum and the overall one.
    let k = counts(count(0, Some(0)), count(1, Some(1)), count(1, Some(1)));
    assert_eq!(arity_mismatch_size(&k, false, &vec![], &vec![kwargs(int_(), 0)]), 0);
    assert_eq!(arity_mismatch_size(&k, false, &vec![], &vec![]), 2);
}

#[test]
fn arity_unbounded_maximum() {
    let c = counts(count(0, None), count(0, None), count(0, None));
    let args: Vec<CallArg> = (0..5).map(|i| arg(int_(), i * 2)).collect();
    assert_eq!(arity_mismatch_size(&c, false, &args, &vec![kw("k", int_(), 20)]), 0);
}

// ---------------------------------------------------------------------------------------
// Type expansion.

#[test]
fn expand_union_into_members() {
    let t = Ty::Union(vec![int_(), str_()]);
    assert_eq!(shows(&expand_type(&t)), shows(&[int_(), str_()]));
}

#[test]
fn expand_bool_into_literals() {
    assert_eq!(shows(&expand_type(&bool_())), shows(&[lit_bool(true), lit_bool(false)]));
}

#[test]
fn expand_bool_only_from_builtins() {
    let t = Ty::ClassType { module: "mine".to_string(), name: "bool".to_string(), targs: vec![], enum_members: None };
    assert!(expand_type(&t).is_empty());
}

#[test]
fn expand_enum_into_members() {
    let got = expand_type(&enum_e(&["X", "Y"]));
    let want = vec![
        Ty::Literal(Lit::EnumMember("E".to_string(), "X".to_string())),
        Ty::Literal(Lit::EnumMember("E".to_string(), "Y".to_string())),
    ];
    assert_eq!(shows(&got), shows(&want));
}

#[test]
fn expand_one_member_enum() {
    assert_eq!(expand_type(&enum_e(&["X"])).len(), 1);
}

#[test]
fn expand_type_of_union() {
    let t = Ty::TypeOf(Box::new(Ty::Union(vec![class("A"), class("B")])));
    let want = vec![Ty::TypeOf(Box::new(class("A"))), Ty::TypeOf(Box::new(class("B")))];
    assert_eq!(shows(&expand_type(&t)), shows(&want));
    assert!(expand_type(&Ty::TypeOf(Box::new(int_()))).is_empty());
}

#[test]
fn expand_tuple_into_product() {
    let t = Ty::Tuple(vec![int_(), bool_()]);
    let want = vec![Ty::Tuple(vec![int_(), lit_bool(true)]), Ty::Tuple(vec![int_(), lit_bool(false)])];
    assert_eq!(shows(&expand_type(&t)), shows(&want));
}

#[test]
fn expand_tuple_last_member_fastest() {
    let t = Ty::Tuple(vec![Ty::Union(vec![int_(), str_()]), bool_()]);
    let want = vec![
        Ty::Tuple(vec![int_(), lit_bool(true)]),
        Ty::Tuple(vec![int_(), lit_bool(false)]),
        Ty::Tuple(vec![str_(), lit_bool(true)]),
        Ty::Tuple(vec![str_(), lit_bool(false)]),
    ];
    assert_eq!(shows(&expand_type(&t)), shows(&want));
}

#[test]
fn expand_tuple_without_expandable_member() {
    assert!(expand_type(&Ty::Tuple(vec![int_(), str_()])).is_empty());
    assert!(expand_type(&Ty::Tuple(vec![])).is_empty());
}

#[test]
fn expand_tuple_over_limit() {
    // 2^7 = 128 tuples exceed the limit of 100; 2^6 = 64 do not.
    let big = Ty::Tuple((0..7).map(|_| bool_()).collect());
    assert!(expand_type(&big).is_empty());
    let small = Ty::Tuple((0..6).map(|_| bool_()).collect());
    assert_eq!(expand_type(&small).len(), 64);
}

#[test]
fn expand_constrained_type_variable() {
    let t = Ty::Quantified { name: "T".to_string(), restriction: Restriction::Constraints(vec![int_(), str_()]) };
    assert_eq!(shows(&expand_type(&t)), shows(&[int_(), str_()]));
    let bound = Ty::Quantified { name: "T".to_string(), restriction: Restriction::Bound(Box::new(int_())) };
    assert!(expand_type(&bound).is_empty());
}

#[test]
fn expand_other_types_not() {
    assert!(expand_type(&int_()).is_empty());
    assert!(expand_type(&Ty::Any).is_empty());
    assert!(expand_type(&Ty::Var(3)).is_empty());
}

// ---------------------------------------------------------------------------------------
// Argument expansion.

fn list_types(list: &(Vec<CallArg>, Vec<CallKeyword>)) -> Vec<String> {
    let mut r: Vec<String> = list.0.iter().map(|a| show(&a.value().ty)).collect();
    r.extend(list.1.iter().map(|k| show(&k.value.ty)));
    r
}

#[test]
fn expander_expands_one_argument_at_a_time() {
    let u = Ty::Union(vec![int_(), str_()]);
    let mut e = ArgsExpander::new(vec![arg(u.clone(), 0), arg(u.clone(), 2)], vec![]);
    let first = e.expand().expect("first expansion");
    assert_eq!(first.len(), 2);
    assert_eq!(list_types(&first[0]), vec![show(&int_()), show(&u)]);
    assert_eq!(list_types(&first[1]), vec![show(&str_()), show(&u)]);
    let second = e.expand().expect("second expansion");
    assert_eq!(second.len(), 4);
    assert_eq!(list_types(&second[0]), vec![show(&int_()), show(&int_())]);
    assert_eq!(list_types(&second[1]), vec![show(&int_()), show(&str_())]);
    assert_eq!(list_types(&second[2]), vec![show(&str_()), show(&int_())]);
    assert_eq!(list_types(&second[3]), vec![show(&str_()), show(&str_())]);
    assert!(e.expand().is_none());
    assert!(e.expand().is_none());
}

#[test]
fn expander_skips_unexpandable_arguments() {
    let mut e = ArgsExpander::new(vec![arg(int_(), 0)], vec![kw("k", bool_(), 2)]);
    let lists = e.expand().expect("the keyword expands");
    assert_eq!(lists.len(), 2);
    assert_eq!(list_types(&lists[0]), vec![show(&int_()), show(&lit_bool(true))]);
    assert_eq!(lists[1].1[0].arg.as_deref(), Some("k"));
    assert!(e.expand().is_none());
}

#[test]
fn expander_keeps_star_and_ranges() {
    let mut e = ArgsExpander::new(vec![star(bool_(), 10)], vec![]);
    let lists = e.expand().expect("expands");
    match &lists[0].0[0] {
        CallArg::Star(v, r) => {
            assert_eq!(*r, range(10, 12));
            // The new value takes the range of the whole `*xs`.
            assert_eq!(v.range, range(10, 12));
        },
        CallArg::Arg(_) => panic!("the unpacking is kept"),
    }
}

#[test]
fn expander_with_no_arguments() {
    let mut e = ArgsExpander::new(vec![], vec![]);
    assert!(e.expand().is_none());
}

#[test]
fn expander_stops_at_limit() {
    // Seven bools double the lists each time: 2, 4, ..., 64, then 128 would reach the limit.
    let args: Vec<CallArg> = (0..7).map(|i| arg(bool_(), i * 2)).collect();
    let mut e = ArgsExpander::new(args, vec![]);
    let mut sizes = Vec::new();
    while let Some(lists) = e.expand() {
        sizes.push(lists.len());
    }
    assert_eq!(sizes, vec![2, 4, 8, 16, 32]);
    assert!(e.expand().is_none());
}

#[test]
fn expander_first_index() {
    assert_eq!(ArgsExpander::GAS, 100);
    let _ = ArgIdx::Positional(0);
}

// ---------------------------------------------------------------------------------------
// Placeholder variables.

#[test]
fn placeholder_vars_in_order_without_repeats() {
    let obj = Ty::ClassType { module: "m".to_string(), name: "C".to_string(), targs: vec![Ty::Var(5)], enum_members: None };
    let args = vec![arg(Ty::Union(vec![Ty::Var(1), Ty::Var(5)]), 0), star(Ty::Tuple(vec![Ty::Var(2)]), 2)];
    let kws = vec![kw("k", Ty::TypeOf(Box::new(Ty::Var(1))), 4), kw("j", Ty::Var(7), 8)];
    assert_eq!(collect_placeholder_vars(Some(&obj), &args, &kws), vec![5, 1, 2, 7]);
    assert_eq!(collect_placeholder_vars(None, &args, &vec![]), vec![1, 5, 2]);
    assert!(collect_placeholder_vars(None, &vec![arg(int_(), 0)], &vec![]).is_empty());
}

// ---------------------------------------------------------------------------------------
// Searching for the closest overload.

fn plain(n: usize) -> Vec<OverloadParams> {
    (0..n).map(|_| OverloadParams { has_varargs: false, has_kwargs: false }).collect()
}

fn done(s: &ClosestOverloadSearch) -> overload_eval::search::ClosestOutcome {
    match s.phase() {
        SearchPhase::Done(o) => o,
        p => panic!("not done: {:?}", p),
    }
}

#[test]
fn search_unmatched_picks_fewest_errors() {
    let mut s = ClosestOverloadSearch::new(plain(3), &vec![arg(int_(), 0)], &vec![], false);
    s.record_call(2, &int_());
    s.record_call(1, &str_());
    s.record_call(1, &int_());
    let o = done(&s);
    assert_eq!(o.candidate, 1);
    assert!(!o.matched);
    assert_eq!(o.source, ResultSource::Plain);
}

#[test]
fn search_single_match_is_called_with_hint() {
    let mut s = ClosestOverloadSearch::new(plain(2), &vec![arg(int_(), 0)], &vec![], false);
    assert!(matches!(s.next_action(), SearchAction::Call(0)));
    s.record_call(1, &str_());
    assert!(matches!(s.next_action(), SearchAction::Call(1)));
    s.record_call(0, &int_());
    assert!(matches!(s.next_action(), SearchAction::ContextualCall(1)));
    s.record_contextual(false, &Ty::Union(vec![int_(), str_()]));
    let o = done(&s);
    assert_eq!(o.candidate, 1);
    assert!(o.matched);
    assert_eq!(o.source, ResultSource::Contextual);
    assert!(o.res_is_union);
}

#[test]
fn search_contextual_falls_back_on_hard_errors() {
    let mut s = ClosestOverloadSearch::new(plain(1), &vec![], &vec![], false);
    s.record_call(0, &Ty::Never);
    s.record_contextual(true, &int_());
    let o = done(&s);
    assert_eq!(o.source, ResultSource::Plain);
    assert!(o.res_is_never);
}

#[test]
fn search_unchanged_materialization_keeps_first() {
    let mut s = ClosestOverloadSearch::new(plain(3), &vec![arg(int_(), 0)], &vec![], false);
    s.record_call(0, &int_());
    s.record_call(0, &str_());
    s.record_call(0, &int_());
    match s.next_action() {
        SearchAction::Materialize(ms) => assert_eq!(ms, vec![0, 1, 2]),
        a => panic!("unexpected {:?}", a),
    }
    s.record_materialized(false);
    assert!(matches!(s.next_action(), SearchAction::ContextualCall(0)));
}

#[test]
fn search_split_at_first_accepting_materialization() {
    let mut s = ClosestOverloadSearch::new(plain(3), &vec![arg(Ty::Any, 0)], &vec![], false);
    for _ in 0..3 {
        s.record_call(0, &int_());
    }
    s.record_materialized(true);
    assert!(matches!(s.next_action(), SearchAction::CallMaterialized(0)));
    s.record_materialized_call(true);
    assert!(matches!(s.next_action(), SearchAction::CallMaterialized(1)));
    s.record_materialized_call(false);
    // Matches 0 and 1 remain: find a result every other is assignable to.
    assert!(matches!(s.next_action(), SearchAction::CheckSubset(1, 0)));
    s.record_answer(false);
    assert!(matches!(s.next_action(), SearchAction::CheckSubset(0, 1)));
    s.record_answer(true);
    assert!(matches!(s.next_action(), SearchAction::ContextualCall(1)));
}

#[test]
fn search_ambiguous_returns_any() {
    let mut s = ClosestOverloadSearch::new(plain(2), &vec![arg(Ty::Any, 0)], &vec![], false);
    s.record_call(0, &int_());
    s.record_call(0, &str_());
    s.record_materialized(true);
    s.record_materialized_call(true);
    s.record_materialized_call(true);
    assert!(matches!(s.next_action(), SearchAction::CheckSubset(1, 0)));
    s.record_answer(false);
    assert!(matches!(s.next_action(), SearchAction::CheckSubset(0, 1)));
    s.record_answer(false);
    let o = done(&s);
    assert_eq!(o.source, ResultSource::AmbiguousAny);
    assert_eq!(o.candidate, 0);
    assert!(o.matched);
}

#[test]
fn search_spec_compliant_requires_equivalence() {
    let mut s = ClosestOverloadSearch::new(plain(3), &vec![arg(Ty::Any, 0)], &vec![], true);
    for _ in 0..3 {
        s.record_call(0, &int_());
    }
    s.record_materialized(true);
    for _ in 0..3 {
        s.record_materialized_call(true);
    }
    assert!(matches!(s.next_action(), SearchAction::CheckEquivalent(0, 1)));
    s.record_answer(true);
    assert!(matches!(s.next_action(), SearchAction::CheckEquivalent(0, 2)));
    s.record_answer(false);
    assert_eq!(done(&s).source, ResultSource::AmbiguousAny);
}

#[test]
fn search_spec_compliant_all_equivalent_picks_first() {
    let mut s = ClosestOverloadSearch::new(plain(2), &vec![arg(Ty::Any, 0)], &vec![], true);
    s.record_call(0, &int_());
    s.record_call(0, &int_());
    s.record_materialized(true);
    s.record_materialized_call(true);
    s.record_materialized_call(true);
    s.record_answer(true);
    assert!(matches!(s.next_action(), SearchAction::ContextualCall(0)));
}

#[test]
fn search_prefers_varargs_for_unknown_unpacking() {
    // `f(*xs)` with `xs: list[int]`: only the overloads with `*args` stay.
    let params = vec![
        OverloadParams { has_varargs: false, has_kwargs: false },
        OverloadParams { has_varargs: true, has_kwargs: false },
    ];
    let list = Ty::ClassType { module: "builtins".to_string(), name: "list".to_string(), targs: vec![int_()], enum_members: None };
    let mut s = ClosestOverloadSearch::new(params.clone(), &vec![star(list, 0)], &vec![], false);
    s.record_call(0, &int_());
    s.record_call(0, &str_());
    assert!(matches!(s.next_action(), SearchAction::ContextualCall(1)));
    // A tuple of known length supplies a known number of arguments: no filtering.
    let mut t = ClosestOverloadSearch::new(params, &vec![star(Ty::Tuple(vec![int_()]), 0)], &vec![], false);
    t.record_call(0, &int_());
    t.record_call(0, &str_());
    assert!(matches!(t.next_action(), SearchAction::Materialize(_)));
}

#[test]
fn search_prefers_kwargs_for_unknown_keywords() {
    let params = vec![
        OverloadParams { has_varargs: false, has_kwargs: true },
        OverloadParams { has_varargs: false, has_kwargs: false },
    ];
    let dict = Ty::ClassType { module: "builtins".to_string(), name: "dict".to_string(), targs: vec![], enum_members: None };
    let mut s = ClosestOverloadSearch::new(params.clone(), &vec![], &vec![kwargs(dict, 0)], false);
    s.record_call(0, &int_());
    s.record_call(0, &str_());
    assert!(matches!(s.next_action(), SearchAction::ContextualCall(0)));
    let mut t = ClosestOverloadSearch::new(params, &vec![], &vec![kwargs(Ty::TypedDict("TD".to_string()), 0)], false);
    t.record_call(0, &int_());
    t.record_call(0, &str_());
    assert!(matches!(t.next_action(), SearchAction::Materialize(_)));
}

#[test]
fn materialization_decision() {
    assert!(should_materialize(true, true, &vec![true]));
    assert!(should_materialize(false, false, &vec![]));
    assert!(!should_materialize(false, true, &vec![true, true]));
    assert!(should_materialize(false, true, &vec![true, false]));
}

// ---------------------------------------------------------------------------------------
// Whole calls, with overloads that take one positional parameter each: an argument matches
// a parameter of the same type, or of type `object`.

struct Overload {
    params: Vec<Ty>,
    ret: Ty,
}

fn accepts(param: &Ty, arg: &Ty) -> bool {
    show(param) == show(arg) || show(param) == show(&class("object"))
}

fn evaluate(o: &Overload, args: &[CallArg]) -> (usize, Ty) {
    let errors = o.params.iter().zip(args.iter()).filter(|(p, a)| !accepts(p, &a.value().ty)).count();
    (errors, o.ret.clone())
}

fn is_subset(a: &Ty, b: &Ty) -> bool {
    if show(a) == show(b) {
        return true;
    }
    match b {
        Ty::Union(ms) => ms.iter().any(|m| show(m) == show(a)),
        _ => false,
    }
}

/// Runs a call to completion; returns how it ended and the results of the expanded lists.
fn run(overloads: &[Overload], args: Vec<CallArg>, legacy: bool) -> CallOutcome {
    let sigs: Vec<OverloadSignature> = overloads
        .iter()
        .map(|o| OverloadSignature {
            arg_counts: positional_counts(o.params.len()),
            params: OverloadParams { has_varargs: false, has_kwargs: false },
        })
        .collect();
    let mut call = OverloadCall::new(Vec1::try_from_vec(sigs).unwrap(), false, args, vec![], false, legacy);
    let mut direct_results: Vec<Option<Ty>> = overloads.iter().map(|_| None).collect();
    let mut steps = 0;
    loop {
        steps += 1;
        assert!(steps < 1000);
        match call.next_action() {
            CallAction::Evaluate { list, step } => {
                let args: Vec<CallArg> = call.arg_list(list).0.iter().map(|a| a.deep_copy()).collect();
                match step {
                    SearchAction::Call(i) => {
                        let (e, r) = evaluate(&overloads[i], &args);
                        direct_results[i] = Some(r.clone());
                        call.record_call(e, &r);
                    },
                    SearchAction::Materialize(_) => call.record_materialized(false),
                    SearchAction::CallMaterialized(i) => {
                        let (e, _) = evaluate(&overloads[i], &args);
                        call.record_materialized_call(e > 0);
                    },
                    SearchAction::CheckEquivalent(a, b) => {
                        call.record_answer(show(&overloads[a].ret) == show(&overloads[b].ret))
                    },
                    SearchAction::CheckSubset(a, b) => call.record_answer(is_subset(&overloads[a].ret, &overloads[b].ret)),
                    SearchAction::ContextualCall(i) => {
                        let (e, r) = evaluate(&overloads[i], &args);
                        call.record_contextual(e > 0, &r);
                    },
                    SearchAction::Done(_) => panic!("a finished search is not asked for"),
                }
            },
            CallAction::CheckRefinement => call.record_refinement(true),
            CallAction::Done => break,
        }
    }
    assert_eq!(call.phase(), CallPhase::Done);
    let o = call.outcome().unwrap();
    CallOutcome {
        overload: o.overload,
        matched: o.matched,
        result: match &o.result {
            CallResult::ArityMismatch => CallResult::ArityMismatch,
            CallResult::Direct(d) => CallResult::Direct(*d),
            CallResult::Expanded(ps) => CallResult::Expanded(ps.clone()),
            CallResult::Refined(d, ps) => CallResult::Refined(*d, ps.clone()),
        },
    }
}

fn int_str_overloads() -> Vec<Overload> {
    vec![Overload { params: vec![int_()], ret: int_() }, Overload { params: vec![str_()], ret: str_() }]
}

#[test]
fn call_direct_match() {
    let out = run(&int_str_overloads(), vec![arg(str_(), 0)], false);
    assert!(out.matched);
    assert_eq!(out.overload, 1);
    assert!(matches!(out.result, CallResult::Direct(o) if o.matched && o.candidate == 1));
}

#[test]
fn call_expand_union() {
    let out = run(&int_str_overloads(), vec![arg(Ty::Union(vec![int_(), str_()]), 0)], false);
    assert!(out.matched);
    assert_eq!(out.overload, 0);
    match out.result {
        CallResult::Expanded(ps) => {
            assert_eq!(ps.len(), 2);
            assert_eq!(ps[0].candidate, 0);
            assert_eq!(ps[1].candidate, 1);
        },
        r => panic!("unexpected {:?}", r),
    }
}

#[test]
fn call_expand_bool() {
    let overloads = vec![
        Overload { params: vec![lit_bool(true)], ret: class("T") },
        Overload { params: vec![lit_bool(false)], ret: class("F") },
    ];
    let out = run(&overloads, vec![arg(bool_(), 0)], false);
    assert!(out.matched);
    assert!(matches!(out.result, CallResult::Expanded(ps) if ps.len() == 2 && ps[1].candidate == 1));
}

#[test]
fn call_expand_second_argument() {
    let overloads = vec![
        Overload { params: vec![int_(), int_()], ret: int_() },
        Overload { params: vec![int_(), str_()], ret: str_() },
    ];
    let out = run(&overloads, vec![arg(int_(), 0), arg(Ty::Union(vec![int_(), str_()]), 2)], false);
    assert!(out.matched);
    assert!(matches!(out.result, CallResult::Expanded(ps) if ps.len() == 2));
}

#[test]
fn call_partial_expansion_does_not_match() {
    // `bytes` matches neither overload, so the expansion of `int | bytes` fails.
    let out = run(&int_str_overloads(), vec![arg(Ty::Union(vec![int_(), class("bytes")]), 0)], false);
    assert!(!out.matched);
    assert!(matches!(out.result, CallResult::Direct(o) if !o.matched));
}

#[test]
fn call_arity_mismatch() {
    let overloads = vec![
        Overload { params: vec![int_()], ret: int_() },
        Overload { params: vec![int_(), int_()], ret: int_() },
    ];
    let out = run(&overloads, vec![arg(int_(), 0), arg(int_(), 2), arg(int_(), 4)], false);
    assert!(!out.matched);
    assert_eq!(out.overload, 1);
    assert!(matches!(out.result, CallResult::ArityMismatch));
}

#[test]
fn call_single_fitting_overload_counts_as_matched() {
    let overloads = vec![
        Overload { params: vec![int_()], ret: int_() },
        Overload { params: vec![int_(), int_()], ret: int_() },
    ];
    let out = run(&overloads, vec![arg(str_(), 0)], false);
    assert!(out.matched);
    assert_eq!(out.overload, 0);
    assert!(matches!(out.result, CallResult::Direct(o) if !o.matched));
}

#[test]
fn call_refines_only_with_legacy_expansion() {
    // `not_none(x: int | None)`: `(None) -> Never`, `(object) -> int | None`.
    let opt = Ty::Union(vec![int_(), none()]);
    let overloads = vec![
        Overload { params: vec![none()], ret: Ty::Never },
        Overload { params: vec![class("object")], ret: opt.clone() },
    ];
    let plain = run(&overloads, vec![arg(opt.clone(), 0)], false);
    assert!(matches!(plain.result, CallResult::Direct(o) if o.candidate == 1 && o.matched));
    let legacy = run(&overloads, vec![arg(opt, 0)], true);
    assert!(legacy.matched);
    match legacy.result {
        CallResult::Refined(o, ps) => {
            assert_eq!(o.candidate, 1);
            assert_eq!(ps.len(), 2);
            assert!(ps[1].res_is_never);
        },
        r => panic!("unexpected {:?}", r),
    }
}

#[test]
fn try_new_refuses_mismatch_past_usize() {
    let huge = counts(count(usize::MAX, None), count(usize::MAX, None), count(usize::MAX, None));
    let sigs = vec![OverloadSignature { arg_counts: huge, params: OverloadParams { has_varargs: false, has_kwargs: false } }];
    assert!(OverloadCall::try_new(Vec1::try_from_vec(sigs).unwrap(), false, vec![], vec![], false, false).is_none());
}

#[test]
fn try_new_starts_searching() {
    let sigs = vec![
        OverloadSignature { arg_counts: positional_counts(1), params: OverloadParams { has_varargs: false, has_kwargs: false } },
        OverloadSignature { arg_counts: positional_counts(2), params: OverloadParams { has_varargs: false, has_kwargs: false } },
    ];
    let call = OverloadCall::try_new(Vec1::try_from_vec(sigs).unwrap(), false, vec![arg(int_(), 0)], vec![], false, false)
        .expect("the arity fits in a usize");
    assert_eq!(call.phase(), CallPhase::Searching);
    match call.next_action() {
        CallAction::Evaluate { list: None, step: SearchAction::Call(0) } => {},
        other => panic!("unexpected action {:?}", other),
    }
}

#[test]
fn unpacked_arguments_never_add_mismatch() {
    let c = counts(count(1, Some(1)), count(0, Some(0)), count(1, Some(1)));
    let args = vec![arg(int_(), 0), arg(int_(), 2)];
    let base = arity_mismatch_size(&c, false, &args, &vec![]);
    assert_eq!(base, 2);
    let with_star = vec![arg(int_(), 0), arg(int_(), 2), star(int_(), 4)];
    assert!(arity_mismatch_size(&c, false, &with_star, &vec![]) <= base);
    assert!(arity_mismatch_size(&c, false, &args, &vec![kwargs(int_(), 8)]) <= base);
    assert_eq!(arity_mismatch_size(&c, false, &vec![], &vec![]), 2);
    assert_eq!(arity_mismatch_size(&c, false, &vec![star(int_(), 0)], &vec![]), 0);
}

#[test]
fn failed_calls_result_in_error_any() {
    let arity = run(
        &[Overload { params: vec![int_()], ret: int_() }, Overload { params: vec![int_(), int_()], ret: int_() }],
        vec![arg(int_(), 0), arg(int_(), 2), arg(int_(), 4)],
        false,
    );
    assert!(matches!(result_value(&arity), CallValue::ErrorAny));
    let unmatched = run(&int_str_overloads(), vec![arg(Ty::Union(vec![int_(), class("bytes")]), 0)], false);
    assert!(matches!(result_value(&unmatched), CallValue::ErrorAny));
}

#[test]
fn matched_calls_result_in_their_outcomes() {
    let direct = run(&int_str_overloads(), vec![arg(str_(), 0)], false);
    assert!(matches!(result_value(&direct), CallValue::ResultOf(o) if o.candidate == 1));
    // A single overload of fitting arity counts as matched: its own result stands.
    let single = run(
        &[Overload { params: vec![int_()], ret: int_() }, Overload { params: vec![int_(), int_()], ret: int_() }],
        vec![arg(str_(), 0)],
        false,
    );
    assert!(matches!(result_value(&single), CallValue::ResultOf(o) if o.candidate == 0 && !o.matched));
    let expanded = run(&int_str_overloads(), vec![arg(Ty::Union(vec![int_(), str_()]), 0)], false);
    match result_value(&expanded) {
        CallValue::UnionOf(ps) => {
            assert_eq!(ps.iter().map(|p| p.candidate).collect::<Vec<_>>(), vec![0, 1]);
        },
        v => panic!("unexpected {:?}", v),
    }
}
