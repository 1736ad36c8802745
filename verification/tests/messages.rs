use overload_eval::args::{CallArg, CallKeyword, TextRange, TypedValue};
use overload_eval::arity::{ArgCount, ArgCounts};
use overload_eval::report::{
    arguments_display, arity_mismatch_detail, matched_params_without_self, no_match_details,
    no_matching_overload_header, possible_overloads, push_count, push_decimal, show_full_signature,
    signature_overlay, ParamOverlay,
};
use overload_eval::types::Ty;

fn any_arg(at: u32) -> CallArg {
    CallArg::Arg(TypedValue { ty: Ty::Any, range: TextRange { start: at, end: at + 1 } })
}

fn any_star(at: u32) -> CallArg {
    CallArg::Star(TypedValue { ty: Ty::Any, range: TextRange { start: at + 1, end: at + 2 } }, TextRange { start: at, end: at + 2 })
}

fn any_kw(name: Option<&str>, at: u32) -> CallKeyword {
    CallKeyword {
        range: TextRange { start: at, end: at + 3 },
        arg: name.map(|n| n.to_string()),
        value: TypedValue { ty: Ty::Any, range: TextRange { start: at + 2, end: at + 3 } },
    }
}

fn count(min: usize, max: Option<usize>) -> ArgCount {
    ArgCount { min, max }
}

fn strings(xs: &[&str]) -> Vec<String> {
    xs.iter().map(|x| x.to_string()).collect()
}

#[test]
fn decimal_numbers() {
    let mut s = String::new();
    push_decimal(&mut s, 0);
    s.push(' ');
    push_decimal(&mut s, 7);
    s.push(' ');
    push_decimal(&mut s, 1234567);
    assert_eq!(s, "0 7 1234567");
}

#[test]
fn counted_nouns() {
    let mut s = String::new();
    push_count(&mut s, 1, "argument");
    assert_eq!(s, "1 argument");
    let mut t = String::new();
    push_count(&mut t, 0, "keyword argument");
    assert_eq!(t, "0 keyword arguments");
}

#[test]
fn too_many_arguments() {
    // `f(0, 1, 2)` against `(x: int, y: int)`.
    let c = ArgCounts { positional: count(1, Some(2)), keyword: count(0, Some(2)), overall: count(1, Some(2)) };
    assert_eq!(arity_mismatch_detail(&c, false, 3, 0).unwrap(), "Expected at most 2 arguments, got 3");
    assert_eq!(arity_mismatch_detail(&c, false, 2, 0), None);
}

/// `def f(self, x, y=..., /, *, z=...)`, called as a method.
fn method_counts() -> ArgCounts {
    ArgCounts { positional: count(2, Some(3)), keyword: count(0, Some(1)), overall: count(2, Some(4)) }
}

#[test]
fn too_few_method_arguments() {
    assert_eq!(arity_mismatch_detail(&method_counts(), true, 0, 0).unwrap(), "Expected at least 1 argument, got 0");
}

#[test]
fn too_many_positional_method_arguments() {
    assert_eq!(arity_mismatch_detail(&method_counts(), true, 3, 0).unwrap(), "Expected at most 2 positional arguments, got 3");
}

#[test]
fn too_many_keyword_method_arguments() {
    assert_eq!(arity_mismatch_detail(&method_counts(), true, 1, 2).unwrap(), "Expected at most 1 keyword argument, got 2");
}

#[test]
fn method_without_self_parameter() {
    let c = ArgCounts { positional: count(0, Some(0)), keyword: count(0, Some(0)), overall: count(0, Some(0)) };
    assert_eq!(
        arity_mismatch_detail(&c, true, 0, 0).unwrap(),
        "This method has no `self` parameter to receive the implicit instance argument. Add a `self` parameter."
    );
}

#[test]
fn arguments_shown_with_unpacking() {
    let args = vec![any_arg(0), any_star(2)];
    let kws = vec![any_kw(Some("k"), 6), any_kw(None, 10)];
    let shown = arguments_display(&args, &strings(&["int", "list[int]"]), &kws, &strings(&["str", "dict[str, int]"]));
    assert_eq!(shown, "(int, *list[int], k=str, **dict[str, int])");
    assert_eq!(arguments_display(&vec![], &vec![], &vec![], &vec![]), "()");
    assert_eq!(arguments_display(&vec![], &vec![], &vec![any_kw(Some("x"), 0)], &strings(&["int"])), "(x=int)");
}

#[test]
fn header_names_function_and_arguments() {
    assert_eq!(
        no_matching_overload_header("f", "(int, str)"),
        "No matching overload found for function `f` called with arguments: (int, str)"
    );
}

#[test]
fn possible_overloads_mark_closest() {
    let details = possible_overloads(&strings(&["(x: int) -> int", "(x: str) -> str"]), 1);
    assert_eq!(details, strings(&["Possible overloads:", "  (x: int) -> int", "  (x: str) -> str [closest match]"]));
}

#[test]
fn overlay_all_on_arity_failure_or_unpacking() {
    let args = vec![any_arg(0)];
    let named = vec![Some("x".to_string())];
    assert!(matches!(signature_overlay(true, &args, &vec![], &vec![true], &vec![], &named, &vec![]), ParamOverlay::All));
    assert!(matches!(
        signature_overlay(false, &vec![any_star(0)], &vec![], &vec![true], &vec![], &named, &vec![]),
        ParamOverlay::All
    ));
    assert!(matches!(
        signature_overlay(false, &args, &vec![any_kw(None, 4)], &vec![true], &vec![true], &named, &vec![]),
        ParamOverlay::All
    ));
    // An argument that matched no parameter.
    assert!(matches!(signature_overlay(false, &args, &vec![], &vec![false], &vec![], &named, &vec![]), ParamOverlay::All));
    // A parameter without a name.
    assert!(matches!(signature_overlay(false, &args, &vec![], &vec![true], &vec![], &vec![None], &vec![]), ParamOverlay::All));
}

#[test]
fn overlay_subset_of_matched_and_required() {
    let args = vec![any_arg(0), any_arg(2)];
    let kws = vec![any_kw(Some("z"), 4)];
    let matched = vec![Some("x".to_string()), Some("z".to_string()), Some("x".to_string())];
    let unmatched = vec![Some("y".to_string())];
    let overlay = signature_overlay(false, &args, &kws, &vec![true, true], &vec![true], &matched, &unmatched);
    match &overlay {
        ParamOverlay::Subset(names) => {
            let got: Vec<&String> = names.iter().collect();
            assert_eq!(got, vec!["x", "z", "y"]);
        },
        ParamOverlay::All => panic!("expected a subset"),
    }
    assert!(!show_full_signature(&overlay, &strings(&["x", "y", "z", "w"])));
    assert!(show_full_signature(&overlay, &strings(&["x", "y"])));
    assert!(show_full_signature(&ParamOverlay::All, &strings(&["x"])));
}

#[test]
fn method_error_leaves_out_self() {
    // `A().f(4.2)` against `f(self, x: str, y: int = ...)`: `self` matched at the range of all
    // the arguments, `x` at the argument's own range.
    let all_args = TextRange { start: 10, end: 15 };
    let matched = vec![
        (all_args, Some("self".to_string())),
        (TextRange { start: 11, end: 14 }, Some("x".to_string())),
    ];
    let names = matched_params_without_self(&matched, Some(all_args));
    assert_eq!(names, vec![Some("x".to_string())]);
    // Without an implicit `self`, nothing is left out.
    assert_eq!(matched_params_without_self(&matched, None).len(), 2);
    // The overlay then shows `x` alone, so the stripped signatures `(x: str, y: int = ...)`
    // and `(x: int, y: str = ...)` are shown in part.
    let args = vec![any_arg(11)];
    let overlay = signature_overlay(false, &args, &vec![], &vec![true], &vec![], &names, &vec![]);
    assert!(!show_full_signature(&overlay, &strings(&["x", "y"])));
    let with_self = signature_overlay(false, &args, &vec![], &vec![true], &vec![], &matched_params_without_self(&matched, None), &vec![]);
    assert!(show_full_signature(&with_self, &strings(&["x", "y"])));
}

#[test]
fn details_explain_arity_failure() {
    let c = ArgCounts { positional: count(1, Some(2)), keyword: count(0, Some(2)), overall: count(1, Some(2)) };
    let shown = strings(&["(x: int) -> int", "(x: str) -> str"]);
    let details = no_match_details(&shown, 1, vec![], &c, false, 3, 0).unwrap();
    assert_eq!(
        details,
        strings(&[
            "Possible overloads:",
            "  (x: int) -> int",
            "  (x: str) -> str [closest match]",
            "Expected at most 2 arguments, got 3",
        ])
    );
    // An arity that fits explains nothing.
    assert_eq!(no_match_details(&shown, 1, vec![], &c, false, 1, 0), None);
}

#[test]
fn details_list_call_errors() {
    let c = ArgCounts { positional: count(1, Some(1)), keyword: count(0, Some(0)), overall: count(1, Some(1)) };
    let shown = strings(&["(x: int) -> int", "(x: str) -> str"]);
    let errors = strings(&["Argument `float` is not assignable to parameter `x` with type `int`"]);
    let details = no_match_details(&shown, 0, errors, &c, false, 1, 0).unwrap();
    assert_eq!(
        details,
        strings(&[
            "Possible overloads:",
            "  (x: int) -> int [closest match]",
            "  (x: str) -> str",
            "Argument `float` is not assignable to parameter `x` with type `int`",
        ])
    );
}
