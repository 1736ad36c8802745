use vstd::prelude::*;
use starlark_map::small_set::SmallSet;
use crate::args::{CallArg, CallArgV, CallKeyword, CallKeywordV, TextRange, args_view, keywords_view};
use crate::arity::{ArgCount, ArgCounts};

verus! {

// ---------------------------------------------------------------------------------------
// Numbers and counts in messages.

/// The decimal digit `d` (below ten) as text.
pub open spec fn digit_text(d: nat) -> Seq<char> {
    if d == 0 {
        "0"@
    } else if d == 1 {
        "1"@
    } else if d == 2 {
        "2"@
    } else if d == 3 {
        "3"@
    } else if d == 4 {
        "4"@
    } else if d == 5 {
        "5"@
    } else if d == 6 {
        "6"@
    } else if d == 7 {
        "7"@
    } else if d == 8 {
        "8"@
    } else {
        "9"@
    }
}

/// `n` written in decimal.
pub open spec fn decimal(n: nat) -> Seq<char>
    decreases n,
{
    if n < 10 {
        digit_text(n)
    } else {
        decimal(n / 10) + digit_text(n % 10)
    }
}

/// `n` followed by a noun, pluralized unless `n` is one: `1 argument`, `2 arguments`.
pub open spec fn count_text(n: nat, singular: Seq<char>) -> Seq<char> {
    decimal(n) + " "@ + singular + if n == 1 {
        ""@
    } else {
        "s"@
    }
}

fn digit_str(d: usize) -> (r: &'static str)
    requires
        d < 10,
    ensures
        r@ == digit_text(d as nat),
{
    if d == 0 {
        "0"
    } else if d == 1 {
        "1"
    } else if d == 2 {
        "2"
    } else if d == 3 {
        "3"
    } else if d == 4 {
        "4"
    } else if d == 5 {
        "5"
    } else if d == 6 {
        "6"
    } else if d == 7 {
        "7"
    } else if d == 8 {
        "8"
    } else {
        "9"
    }
}

/// Appends `n` in decimal to `out`.
pub fn push_decimal(out: &mut String, n: usize)
    ensures
        final(out)@ == old(out)@ + decimal(n as nat),
    decreases n,
{
    if n >= 10 {
        push_decimal(out, n / 10);
    }
    out.append(digit_str(n % 10));
    proof {
        if n < 10 {
            assert(n % 10 == n);
            assert(old(out)@ + decimal(n as nat) == old(out)@ + digit_text(n as nat));
        }
    }
}

/// Appends [`count_text`] to `out`.
pub fn push_count(out: &mut String, n: usize, singular: &str)
    ensures
        final(out)@ == old(out)@ + count_text(n as nat, singular@),
{
    push_decimal(out, n);
    out.append(" ");
    out.append(singular);
    if n != 1 {
        out.append("s");
    }
    proof {
        reveal_strlit("");
        let s = old(out)@ + decimal(n as nat) + " "@ + singular@;
        assert(s + "s"@ =~= old(out)@ + (decimal(n as nat) + " "@ + singular@ + "s"@));
        assert(s + ""@ =~= s);
        assert(s =~= old(out)@ + (decimal(n as nat) + " "@ + singular@ + ""@));
    }
}

// ---------------------------------------------------------------------------------------
// The arity detail of a "no matching overload" error.

/// `c` with one argument fewer at both ends (not going below zero).
pub open spec fn one_fewer(c: ArgCount) -> ArgCount {
    ArgCount {
        min: if c.min > 0 { (c.min - 1) as usize } else { 0 },
        max: match c.max {
            Some(m) => Some(if m > 0 { (m - 1) as usize } else { 0 }),
            None => None,
        },
    }
}

/// The counts as the user sees them: the implicit `self` argument is not shown.
pub open spec fn counts_without_self(counts: ArgCounts, has_self: bool) -> ArgCounts {
    if has_self {
        ArgCounts {
            positional: one_fewer(counts.positional),
            keyword: counts.keyword,
            overall: one_fewer(counts.overall),
        }
    } else {
        counts
    }
}

/// A sentence on how `actual` arguments miss `expected`, if they do: too few, then too many.
pub open spec fn count_complaint(actual: nat, expected: ArgCount, prefix: Seq<char>) -> Option<Seq<char>> {
    let noun = prefix + "argument"@;
    if actual < expected.min {
        Some("Expected at least "@ + count_text(expected.min as nat, noun) + ", got "@ + decimal(actual))
    } else {
        match expected.max {
            Some(m) => if actual > m {
                Some("Expected at most "@ + count_text(m as nat, noun) + ", got "@ + decimal(actual))
            } else {
                None
            },
            None => None,
        }
    }
}

pub open spec fn no_self_text() -> Seq<char> {
    "This method has no `self` parameter to receive the implicit instance argument. Add a `self` parameter."@
}

/// The detail of an arity mismatch with the closest overload, given `npos` positional and
/// `nkw` keyword arguments: a method without parameters cannot take its instance; otherwise
/// the overall count is checked first, then the positional count, then the keyword count.
pub open spec fn arity_detail(counts: ArgCounts, has_self: bool, npos: nat, nkw: nat) -> Option<Seq<char>> {
    if has_self && counts.positional.max == Some(0usize) {
        Some(no_self_text())
    } else {
        let c = counts_without_self(counts, has_self);
        match count_complaint(npos + nkw, c.overall, ""@) {
            Some(m) => Some(m),
            None => match count_complaint(npos, c.positional, "positional "@) {
                Some(m) => Some(m),
                None => count_complaint(nkw, c.keyword, "keyword "@),
            },
        }
    }
}

fn without_self(c: ArgCount) -> (r: ArgCount)
    ensures
        r == one_fewer(c),
{
    ArgCount {
        min: c.min.saturating_sub(1),
        max: match c.max {
            Some(m) => Some(m.saturating_sub(1)),
            None => None,
        },
    }
}

/// See [`count_complaint`].
fn complain(actual: usize, expected: ArgCount, prefix: &str) -> (r: Option<String>)
    ensures
        match r {
            Some(s) => count_complaint(actual as nat, expected, prefix@) == Some(s@),
            None => count_complaint(actual as nat, expected, prefix@) is None,
        },
{
    let mut noun = String::from_str(prefix);
    noun.append("argument");
    if actual < expected.min {
        let mut s = String::from_str("Expected at least ");
        push_count(&mut s, expected.min, noun.as_str());
        s.append(", got ");
        push_decimal(&mut s, actual);
        return Some(s);
    }
    match expected.max {
        Some(m) => {
            if actual > m {
                let mut s = String::from_str("Expected at most ");
                push_count(&mut s, m, noun.as_str());
                s.append(", got ");
                push_decimal(&mut s, actual);
                Some(s)
            } else {
                None
            }
        },
        None => None,
    }
}

/// The detail of an arity mismatch (see [`arity_detail`]) for a call with `nposargs`
/// positional and `nkwargs` keyword arguments; `None` when no count misses.
pub fn arity_mismatch_detail(counts: &ArgCounts, has_self: bool, nposargs: usize, nkwargs: usize) -> (r: Option<String>)
    requires
        nposargs + nkwargs <= usize::MAX,
    ensures
        match r {
            Some(s) => arity_detail(*counts, has_self, nposargs as nat, nkwargs as nat) == Some(s@),
            None => arity_detail(*counts, has_self, nposargs as nat, nkwargs as nat) is None,
        },
{
    if has_self && counts.positional.max == Some(0usize) {
        return Some(
            String::from_str(
                "This method has no `self` parameter to receive the implicit instance argument. Add a `self` parameter.",
            ),
        );
    }
    let c = if has_self {
        ArgCounts {
            positional: without_self(counts.positional),
            keyword: counts.keyword,
            overall: without_self(counts.overall),
        }
    } else {
        *counts
    };
    match complain(nposargs + nkwargs, c.overall, "") {
        Some(m) => Some(m),
        None => match complain(nposargs, c.positional, "positional ") {
            Some(m) => Some(m),
            None => complain(nkwargs, c.keyword, "keyword "),
        },
    }
}

// ---------------------------------------------------------------------------------------
// The header of a "no matching overload" error.

/// Each text of `parts`, separated by `sep`.
pub open spec fn joined(parts: Seq<Seq<char>>, sep: Seq<char>) -> Seq<char>
    decreases parts.len(),
{
    if parts.len() == 0 {
        Seq::empty()
    } else if parts.len() == 1 {
        parts[0]
    } else {
        joined(parts.drop_last(), sep) + sep + parts.last()
    }
}

/// How a positional argument is shown: its type, after `*` if unpacked.
pub open spec fn arg_text(a: CallArgV, ty_text: Seq<char>) -> Seq<char> {
    if a.star {
        "*"@ + ty_text
    } else {
        ty_text
    }
}

/// How a keyword argument is shown: `name=type`, or `**type` if unpacked.
pub open spec fn keyword_text(k: CallKeywordV, ty_text: Seq<char>) -> Seq<char> {
    match k.arg {
        Some(name) => name + "="@ + ty_text,
        None => "**"@ + ty_text,
    }
}

/// How each argument is shown: the positional ones, then the keyword ones.
pub open spec fn argument_parts(
    args: Seq<CallArgV>,
    arg_types: Seq<Seq<char>>,
    kws: Seq<CallKeywordV>,
    kw_types: Seq<Seq<char>>,
) -> Seq<Seq<char>> {
    Seq::new(args.len(), |i: int| arg_text(args[i], arg_types[i])) + Seq::new(
        kws.len(),
        |i: int| keyword_text(kws[i], kw_types[i]),
    )
}

/// The arguments of a call as shown in an error: `(t1, *t2, k=t3, **t4)`, given how each
/// argument's type is shown.
pub open spec fn arguments_text(
    args: Seq<CallArgV>,
    arg_types: Seq<Seq<char>>,
    kws: Seq<CallKeywordV>,
    kw_types: Seq<Seq<char>>,
) -> Seq<char> {
    "("@ + joined(argument_parts(args, arg_types, kws, kw_types), ", "@) + ")"@
}

proof fn lemma_argument_parts(
    args: Seq<CallArgV>,
    arg_types: Seq<Seq<char>>,
    kws: Seq<CallKeywordV>,
    kw_types: Seq<Seq<char>>,
)
    ensures
        argument_parts(args, arg_types, kws, kw_types).len() == args.len() + kws.len(),
        forall|i: int| 0 <= i < args.len() ==> #[trigger] argument_parts(args, arg_types, kws, kw_types)[i] == arg_text(args[i], arg_types[i]),
        forall|i: int| 0 <= i < kws.len() ==> #[trigger] argument_parts(args, arg_types, kws, kw_types)[args.len() + i] == keyword_text(kws[i], kw_types[i]),
{
}

/// Appends the next part to a joined text.
proof fn lemma_joined_step(parts: Seq<Seq<char>>, n: int, sep: Seq<char>)
    requires
        0 <= n < parts.len(),
    ensures
        joined(parts.take(n + 1), sep) == if n == 0 {
            parts[n]
        } else {
            joined(parts.take(n), sep) + sep + parts[n]
        },
{
    assert(parts.take(n + 1) =~= parts.take(n).push(parts[n]));
    lemma_joined_push(parts.take(n), parts[n], sep);
}

pub open spec fn strings_view(v: Seq<String>) -> Seq<Seq<char>> {
    v.map_values(|s: String| s@)
}

/// See [`arguments_text`].
pub fn arguments_display(
    args: &Vec<CallArg>,
    arg_types: &Vec<String>,
    keywords: &Vec<CallKeyword>,
    keyword_types: &Vec<String>,
) -> (r: String)
    requires
        arg_types@.len() == args@.len(),
        keyword_types@.len() == keywords@.len(),
        args@.len() + keywords@.len() <= usize::MAX,
    ensures
        r@ == arguments_text(args_view(args@), strings_view(arg_types@), keywords_view(keywords@), strings_view(keyword_types@)),
{
    let ghost parts = argument_parts(args_view(args@), strings_view(arg_types@), keywords_view(keywords@), strings_view(keyword_types@));
    proof {
        lemma_argument_parts(args_view(args@), strings_view(arg_types@), keywords_view(keywords@), strings_view(keyword_types@));
    }
    let mut out = String::from_str("(");
    let mut n: usize = 0;
    let mut i: usize = 0;
    while i < args.len()
        invariant
            i <= args@.len(),
            n == i,
            parts.len() == args@.len() + keywords@.len(),
            forall|j: int| 0 <= j < args@.len() ==> #[trigger] parts[j] == arg_text(args@[j]@, arg_types@[j]@),
            arg_types@.len() == args@.len(),
            out@ == "("@ + joined(parts.take(n as int), ", "@),
        decreases args.len() - i,
    {
        if n > 0 {
            out.append(", ");
        }
        match &args[i] {
            CallArg::Arg(_) => {},
            CallArg::Star(..) => {
                out.append("*");
            },
        }
        out.append(arg_types[i].as_str());
        proof {
            assert(parts[n as int] == arg_text(args@[i as int]@, arg_types@[i as int]@));
            lemma_joined_step(parts, n as int, ", "@);
        }
        n = n + 1;
        i = i + 1;
    }
    let mut j: usize = 0;
    while j < keywords.len()
        invariant
            j <= keywords@.len(),
            n == args@.len() + j,
            args@.len() + keywords@.len() <= usize::MAX,
            parts.len() == args@.len() + keywords@.len(),
            forall|k: int| 0 <= k < keywords@.len() ==> #[trigger] parts[args@.len() + k] == keyword_text(keywords@[k]@, keyword_types@[k]@),
            keyword_types@.len() == keywords@.len(),
            out@ == "("@ + joined(parts.take(n as int), ", "@),
        decreases keywords.len() - j,
    {
        if n > 0 {
            out.append(", ");
        }
        match &keywords[j].arg {
            Some(name) => {
                out.append(name.as_str());
                out.append("=");
            },
            None => {
                out.append("**");
            },
        }
        out.append(keyword_types[j].as_str());
        proof {
            assert(parts[n as int] == keyword_text(keywords@[j as int]@, keyword_types@[j as int]@));
            lemma_joined_step(parts, n as int, ", "@);
        }
        n = n + 1;
        j = j + 1;
    }
    out.append(")");
    proof {
        assert(parts.take(n as int) =~= parts);
    }
    out
}

proof fn lemma_joined_push(parts: Seq<Seq<char>>, p: Seq<char>, sep: Seq<char>)
    ensures
        joined(parts.push(p), sep) == if parts.len() == 0 {
            p
        } else {
            joined(parts, sep) + sep + p
        },
{
    assert(parts.push(p).drop_last() =~= parts);
}

/// The header of a "no matching overload" error, given how the function is named and how
/// the arguments are shown.
pub open spec fn no_match_header(function: Seq<char>, arguments: Seq<char>) -> Seq<char> {
    "No matching overload found for function `"@ + function + "` called with arguments: "@ + arguments
}

/// See [`no_match_header`].
pub fn no_matching_overload_header(function: &str, arguments: &str) -> (r: String)
    ensures
        r@ == no_match_header(function@, arguments@),
{
    let mut s = String::from_str("No matching overload found for function `");
    s.append(function);
    s.append("` called with arguments: ");
    s.append(arguments);
    s
}

/// The details of a "no matching overload" error: a heading, then each overload's
/// signature, indented, the closest one marked.
pub open spec fn overload_details(signatures: Seq<Seq<char>>, closest: int) -> Seq<Seq<char>> {
    seq!["Possible overloads:"@] + Seq::new(
        signatures.len(),
        |i: int| "  "@ + signatures[i] + if i == closest {
            " [closest match]"@
        } else {
            ""@
        },
    )
}

/// See [`overload_details`].
pub fn possible_overloads(signatures: &Vec<String>, closest: usize) -> (r: Vec<String>)
    ensures
        strings_view(r@) == overload_details(strings_view(signatures@), closest as int),
{
    let mut r: Vec<String> = Vec::new();
    r.push(String::from_str("Possible overloads:"));
    let mut i: usize = 0;
    while i < signatures.len()
        invariant
            i <= signatures@.len(),
            strings_view(r@) == overload_details(strings_view(signatures@), closest as int).take(i + 1),
        decreases signatures.len() - i,
    {
        let mut line = String::from_str("  ");
        line.append(signatures[i].as_str());
        if i == closest {
            line.append(" [closest match]");
        }
        let ghost before = strings_view(r@);
        r.push(line);
        proof {
            reveal_strlit("");
            let d = overload_details(strings_view(signatures@), closest as int);
            assert(d[i + 1] == "  "@ + signatures@[i as int]@ + if i == closest {
                " [closest match]"@
            } else {
                ""@
            });
            if i != closest {
                assert(line@ =~= d[i + 1]);
            } else {
                assert(line@ =~= d[i + 1]);
            }
            assert(strings_view(r@) =~= before.push(line@));
            assert(d.take(i + 2) =~= d.take(i + 1).push(d[i + 1]));
            assert(strings_view(r@) =~= d.take(i + 2));
        }
        i = i + 1;
    }
    proof {
        assert(overload_details(strings_view(signatures@), closest as int).take(i + 1) =~= overload_details(
            strings_view(signatures@),
            closest as int,
        ));
    }
    r
}

// ---------------------------------------------------------------------------------------
// Which parameters the signatures in the error show.

#[verifier::external_type_specification]
#[verifier::external_body]
#[verifier::reject_recursive_types(T)]
pub struct ExSmallSet<T>(SmallSet<T>);

/// The names a set of parameter names holds, in insertion order.
pub uninterp spec fn name_set_items(s: SmallSet<String>) -> Seq<Seq<char>>;

/// `SmallSet::new`: an empty set.
#[verifier::external_body]
fn name_set_new() -> (r: SmallSet<String>)
    ensures
        name_set_items(r) == Seq::<Seq<char>>::empty(),
{
    SmallSet::new()
}

/// `SmallSet::insert`: adds `name` at the end unless an equal name is there; returns
/// whether it was added.
#[verifier::external_body]
fn name_set_insert(s: &mut SmallSet<String>, name: String) -> (added: bool)
    ensures
        added == !name_set_items(*old(s)).contains(name@),
        name_set_items(*final(s)) == if added {
            name_set_items(*old(s)).push(name@)
        } else {
            name_set_items(*old(s))
        },
{
    s.insert(name)
}

/// `SmallSet::contains`: whether the set holds a name equal to `name`.
#[verifier::external_body]
fn name_set_contains(s: &SmallSet<String>, name: &String) -> (r: bool)
    ensures
        r == name_set_items(*s).contains(name@),
{
    s.contains(name)
}

/// The names of the set, in order (`SmallSet::iter`, cloned).
#[verifier::external_body]
fn name_set_names(s: &SmallSet<String>) -> (r: Vec<String>)
    ensures
        strings_view(r@) == name_set_items(*s),
{
    s.iter().cloned().collect()
}

/// Which parameters of a signature an error shows.
pub enum ParamOverlay {
    All,
    /// Only the parameters with these names.
    Subset(SmallSet<String>),
}

/// `names` without repeats, each at its first occurrence.
pub open spec fn distinct_names(names: Seq<Seq<char>>) -> Seq<Seq<char>>
    decreases names.len(),
{
    if names.len() == 0 {
        Seq::empty()
    } else {
        let d = distinct_names(names.drop_last());
        if d.contains(names.last()) {
            d
        } else {
            d.push(names.last())
        }
    }
}

proof fn lemma_distinct_names_contains(names: Seq<Seq<char>>)
    ensures
        forall|x: Seq<char>| distinct_names(names).contains(x) <==> names.contains(x),
    decreases names.len(),
{
    if names.len() > 0 {
        let init = names.drop_last();
        let last = names.last();
        lemma_distinct_names_contains(init);
        let d = distinct_names(init);
        let r = distinct_names(names);
        assert(r == if d.contains(last) { d } else { d.push(last) });
        assert forall|x: Seq<char>| names.contains(x) implies r.contains(x) by {
            let j = choose|j: int| 0 <= j < names.len() && names[j] == x;
            if j < init.len() {
                assert(init[j] == x);
                assert(init.contains(x));
                assert(d.contains(x));
                let k = choose|k: int| 0 <= k < d.len() && d[k] == x;
                if !d.contains(last) {
                    assert(r[k] == x);
                }
            } else {
                assert(x == last);
                if d.contains(last) {
                } else {
                    assert(r[d.len() as int] == x);
                }
            }
        }
        assert forall|x: Seq<char>| r.contains(x) implies names.contains(x) by {
            let k = choose|k: int| 0 <= k < r.len() && r[k] == x;
            if k < d.len() {
                assert(d[k] == x);
                assert(d.contains(x));
                assert(init.contains(x));
                let j = choose|j: int| 0 <= j < init.len() && init[j] == x;
                assert(names[j] == x);
            } else {
                assert(names[names.len() - 1] == x);
            }
        }
    }
}

pub open spec fn opt_names_view(v: Seq<Option<String>>) -> Seq<Option<Seq<char>>> {
    v.map_values(|o: Option<String>| match o {
        Some(s) => Some(s@),
        None => None,
    })
}

/// The names of the parameters to show, when all have names: those matched by the
/// arguments, then the required ones left unmatched.
pub open spec fn overlay_names(matched: Seq<Option<Seq<char>>>, unmatched: Seq<Option<Seq<char>>>) -> Option<Seq<Seq<char>>> {
    let all = matched + unmatched;
    if exists|i: int| 0 <= i < all.len() && (#[trigger] all[i]) is None {
        None
    } else {
        Some(distinct_names(Seq::new(all.len(), |i: int| all[i].unwrap())))
    }
}

/// All parameters are shown when the failure was one of arity (no call errors), when some
/// argument is unpacked (which parameters it matched is unknown), or when some argument
/// matched no parameter; otherwise only the matched and the unmatched required ones, when
/// all have names.
pub open spec fn shows_all_params(
    no_call_errors: bool,
    args: Seq<CallArgV>,
    kws: Seq<CallKeywordV>,
    arg_matched: Seq<bool>,
    kw_matched: Seq<bool>,
) -> bool {
    ||| no_call_errors
    ||| exists|i: int| 0 <= i < args.len() && (#[trigger] args[i]).star
    ||| exists|i: int| 0 <= i < kws.len() && (#[trigger] kws[i]).arg is None
    ||| exists|i: int| 0 <= i < arg_matched.len() && !(#[trigger] arg_matched[i])
    ||| exists|i: int| 0 <= i < kw_matched.len() && !(#[trigger] kw_matched[i])
}

/// Chooses which parameters the signatures in a "no matching overload" error show (see
/// [`shows_all_params`] and [`overlay_names`]). `arg_matched` and `kw_matched` say whether
/// each argument matched a parameter of the closest overload; `matched_params` and
/// `unmatched_params` are the names of its matched and unmatched required parameters
/// (`None` for one without a name).
pub fn signature_overlay(
    no_call_errors: bool,
    args: &Vec<CallArg>,
    keywords: &Vec<CallKeyword>,
    arg_matched: &Vec<bool>,
    kw_matched: &Vec<bool>,
    matched_params: &Vec<Option<String>>,
    unmatched_params: &Vec<Option<String>>,
) -> (r: ParamOverlay)
    requires
        matched_params@.len() + unmatched_params@.len() <= usize::MAX,
    ensures
        match r {
            ParamOverlay::All => shows_all_params(no_call_errors, args_view(args@), keywords_view(keywords@), arg_matched@, kw_matched@)
                || overlay_names(opt_names_view(matched_params@), opt_names_view(unmatched_params@)) is None,
            ParamOverlay::Subset(names) => !shows_all_params(no_call_errors, args_view(args@), keywords_view(keywords@), arg_matched@, kw_matched@)
                && overlay_names(opt_names_view(matched_params@), opt_names_view(unmatched_params@)) == Some(name_set_items(names)),
        },
{
    let ghost av = args_view(args@);
    let ghost kv = keywords_view(keywords@);
    let mut all = no_call_errors;
    let mut i: usize = 0;
    while i < args.len()
        invariant
            i <= args@.len(),
            av == args_view(args@),
            all == (no_call_errors || exists|j: int| 0 <= j < i && (#[trigger] av[j]).star),
        decreases args.len() - i,
    {
        match &args[i] {
            CallArg::Star(..) => {
                all = true;
            },
            CallArg::Arg(_) => {},
        }
        proof {
            assert(av[i as int] == args@[i as int]@);
        }
        i = i + 1;
    }
    let mut k: usize = 0;
    while k < keywords.len()
        invariant
            k <= keywords@.len(),
            kv == keywords_view(keywords@),
            all == (no_call_errors || (exists|j: int| 0 <= j < av.len() && (#[trigger] av[j]).star)
                || exists|j: int| 0 <= j < k && (#[trigger] kv[j]).arg is None),
        decreases keywords.len() - k,
    {
        if keywords[k].arg.is_none() {
            all = true;
        }
        proof {
            assert(kv[k as int] == keywords@[k as int]@);
        }
        k = k + 1;
    }
    let mut a: usize = 0;
    while a < arg_matched.len()
        invariant
            a <= arg_matched@.len(),
            all == (no_call_errors || (exists|j: int| 0 <= j < av.len() && (#[trigger] av[j]).star)
                || (exists|j: int| 0 <= j < kv.len() && (#[trigger] kv[j]).arg is None)
                || exists|j: int| 0 <= j < a && !(#[trigger] arg_matched@[j])),
        decreases arg_matched.len() - a,
    {
        if !arg_matched[a] {
            all = true;
        }
        a = a + 1;
    }
    let mut b: usize = 0;
    while b < kw_matched.len()
        invariant
            b <= kw_matched@.len(),
            all == (no_call_errors || (exists|j: int| 0 <= j < av.len() && (#[trigger] av[j]).star)
                || (exists|j: int| 0 <= j < kv.len() && (#[trigger] kv[j]).arg is None)
                || (exists|j: int| 0 <= j < arg_matched@.len() && !(#[trigger] arg_matched@[j]))
                || exists|j: int| 0 <= j < b && !(#[trigger] kw_matched@[j])),
        decreases kw_matched.len() - b,
    {
        if !kw_matched[b] {
            all = true;
        }
        b = b + 1;
    }
    if all {
        return ParamOverlay::All;
    }
    // Collect the names; give up on the subset at the first parameter without a name.
    let ghost mv = opt_names_view(matched_params@);
    let ghost uv = opt_names_view(unmatched_params@);
    let ghost allv = mv + uv;
    let mut names = name_set_new();
    let mut m: usize = 0;
    while m < matched_params.len() + unmatched_params.len()
        invariant
            m <= allv.len(),
            matched_params@.len() + unmatched_params@.len() <= usize::MAX,
            allv == mv + uv,
            mv == opt_names_view(matched_params@),
            uv == opt_names_view(unmatched_params@),
            allv.len() == matched_params@.len() + unmatched_params@.len(),
            forall|j: int| 0 <= j < m ==> (#[trigger] allv[j]) is Some,
            name_set_items(names) == distinct_names(Seq::new(m as nat, |j: int| allv[j].unwrap())),
        decreases matched_params.len() + unmatched_params.len() - m,
    {
        let entry = if m < matched_params.len() {
            &matched_params[m]
        } else {
            &unmatched_params[m - matched_params.len()]
        };
        proof {
            if m < matched_params@.len() {
                assert(allv[m as int] == mv[m as int]);
            } else {
                assert(allv[m as int] == uv[m - matched_params@.len()]);
            }
        }
        match entry {
            Some(name) => {
                let ghost before = name_set_items(names);
                name_set_insert(&mut names, name.clone());
                proof {
                    let prev = Seq::new(m as nat, |j: int| allv[j].unwrap());
                    let next = Seq::new((m + 1) as nat, |j: int| allv[j].unwrap());
                    assert(next.drop_last() =~= prev);
                    assert(next.last() == name@);
                }
            },
            None => {
                return ParamOverlay::All;
            },
        }
        m = m + 1;
    }
    ParamOverlay::Subset(names)
}

/// Whether a signature, whose parameters have `param_names`, is shown in full rather than
/// with the chosen subset: when all are to be shown, or when some chosen name is not among
/// its parameters.
pub open spec fn shows_full_signature(overlay_names: Option<Seq<Seq<char>>>, param_names: Seq<Seq<char>>) -> bool {
    match overlay_names {
        None => true,
        Some(names) => some_name_missing(names, param_names),
    }
}

/// Some name of `names` is not among `param_names`.
pub open spec fn some_name_missing(names: Seq<Seq<char>>, param_names: Seq<Seq<char>>) -> bool {
    exists|i: int| 0 <= i < names.len() && !param_names.contains(#[trigger] names[i])
}

/// See [`shows_full_signature`].
pub fn show_full_signature(overlay: &ParamOverlay, param_names: &Vec<String>) -> (r: bool)
    ensures
        r == shows_full_signature(
            match overlay {
                ParamOverlay::All => None,
                ParamOverlay::Subset(names) => Some(name_set_items(*names)),
            },
            strings_view(param_names@),
        ),
{
    match overlay {
        ParamOverlay::All => true,
        ParamOverlay::Subset(names) => {
            let mut cur_names = name_set_new();
            let mut i: usize = 0;
            while i < param_names.len()
                invariant
                    i <= param_names@.len(),
                    name_set_items(cur_names) == distinct_names(strings_view(param_names@).take(i as int)),
                decreases param_names.len() - i,
            {
                name_set_insert(&mut cur_names, param_names[i].clone());
                proof {
                    let t = strings_view(param_names@).take(i + 1);
                    assert(t.drop_last() =~= strings_view(param_names@).take(i as int));
                    assert(t.last() == param_names@[i as int]@);
                }
                i = i + 1;
            }
            proof {
                assert(strings_view(param_names@).take(i as int) =~= strings_view(param_names@));
                lemma_distinct_names_contains(strings_view(param_names@));
            }
            let wanted = name_set_names(names);
            let mut any_missing = false;
            let mut j: usize = 0;
            while j < wanted.len()
                invariant
                    j <= wanted@.len(),
                    strings_view(wanted@) == name_set_items(*names),
                    forall|x: Seq<char>| name_set_items(cur_names).contains(x) <==> strings_view(param_names@).contains(x),
                    any_missing == exists|k: int| 0 <= k < j && !strings_view(param_names@).contains(#[trigger] name_set_items(*names)[k]),
                decreases wanted.len() - j,
            {
                if !name_set_contains(&cur_names, &wanted[j]) {
                    any_missing = true;
                }
                proof {
                    assert(strings_view(wanted@)[j as int] == wanted@[j as int]@);
                }
                j = j + 1;
            }
            proof {
                assert(wanted@.len() == name_set_items(*names).len());
                let items = name_set_items(*names);
                if !any_missing {
                    assert forall|k: int| 0 <= k < items.len() implies strings_view(param_names@).contains(#[trigger] items[k]) by {}
                    assert(!some_name_missing(items, strings_view(param_names@)));
                } else {
                    let k = choose|k: int| 0 <= k < j && !strings_view(param_names@).contains(#[trigger] name_set_items(*names)[k]);
                    assert(0 <= k < items.len() && !strings_view(param_names@).contains(items[k]));
                    assert(some_name_missing(items, strings_view(param_names@)));
                }
                assert(any_missing == shows_full_signature(Some(items), strings_view(param_names@)));
            }
            any_missing
        },
    }
}

// ---------------------------------------------------------------------------------------
// The parts of the error put together.

/// The lines under the error's header: the possible overloads, then why the closest one
/// fails. Without call errors the failure was one of arity, and its explanation follows
/// (`None` when the arity gives none); otherwise the call errors follow, in order.
pub open spec fn no_match_lines(
    signatures: Seq<Seq<char>>,
    closest: int,
    call_errors: Seq<Seq<char>>,
    arity: Option<Seq<char>>,
) -> Option<Seq<Seq<char>>> {
    if call_errors.len() == 0 {
        match arity {
            Some(d) => Some(overload_details(signatures, closest).push(d)),
            None => None,
        }
    } else {
        Some(overload_details(signatures, closest) + call_errors)
    }
}

/// The lines under a "no matching overload" error's header (see [`no_match_lines`]), for
/// the signatures shown, the closest overload's position among them, the closest overload's
/// call errors, and, for the arity explanation, its argument counts and the call's
/// arguments. `None` when there are no call errors and the arity explains nothing.
pub fn no_match_details(
    signatures: &Vec<String>,
    closest: usize,
    call_errors: Vec<String>,
    counts: &ArgCounts,
    has_self: bool,
    nposargs: usize,
    nkwargs: usize,
) -> (r: Option<Vec<String>>)
    requires
        nposargs + nkwargs <= usize::MAX,
    ensures
        match r {
            Some(d) => no_match_lines(
                strings_view(signatures@),
                closest as int,
                strings_view(call_errors@),
                arity_detail(*counts, has_self, nposargs as nat, nkwargs as nat),
            ) == Some(strings_view(d@)),
            None => no_match_lines(
                strings_view(signatures@),
                closest as int,
                strings_view(call_errors@),
                arity_detail(*counts, has_self, nposargs as nat, nkwargs as nat),
            ) is None,
        },
{
    let mut details = possible_overloads(signatures, closest);
    let ghost base = strings_view(details@);
    if call_errors.len() == 0 {
        match arity_mismatch_detail(counts, has_self, nposargs, nkwargs) {
            Some(d) => {
                details.push(d);
                proof {
                    assert(strings_view(details@) =~= base.push(d@));
                }
                Some(details)
            },
            None => None,
        }
    } else {
        let mut errors = call_errors;
        details.append(&mut errors);
        proof {
            assert(strings_view(details@) =~= base + strings_view(call_errors@));
        }
        Some(details)
    }
}

/// The names of the parameters the arguments matched, in order, leaving out the one matched
/// at `self_range` (where the implicit `self` argument stands) when there is one.
pub open spec fn names_without_self(
    matched: Seq<(TextRange, Option<Seq<char>>)>,
    self_range: Option<TextRange>,
) -> Seq<Option<Seq<char>>>
    decreases matched.len(),
{
    if matched.len() == 0 {
        Seq::empty()
    } else {
        let init = names_without_self(matched.drop_last(), self_range);
        if self_range == Some(matched.last().0) {
            init
        } else {
            init.push(matched.last().1)
        }
    }
}

pub open spec fn ranged_names_view(v: Seq<(TextRange, Option<String>)>) -> Seq<(TextRange, Option<Seq<char>>)> {
    v.map_values(|e: (TextRange, Option<String>)| (e.0, match e.1 {
        Some(n) => Some(n@),
        None => None,
    }))
}

/// The parameters matched by the arguments (each with the range of the argument that
/// matched it, and its name, if any), without the one matched by the implicit `self`
/// argument at `self_range`: the signatures in the error do not show `self`, so neither
/// does the choice of parameters to show (see [`names_without_self`]).
pub fn matched_params_without_self(
    matched: &Vec<(TextRange, Option<String>)>,
    self_range: Option<TextRange>,
) -> (r: Vec<Option<String>>)
    ensures
        opt_names_view(r@) == names_without_self(ranged_names_view(matched@), self_range),
{
    let ghost mv = ranged_names_view(matched@);
    let mut r: Vec<Option<String>> = Vec::new();
    let mut i: usize = 0;
    while i < matched.len()
        invariant
            i <= matched@.len(),
            mv == ranged_names_view(matched@),
            opt_names_view(r@) == names_without_self(mv.take(i as int), self_range),
        decreases matched.len() - i,
    {
        let (range, name) = &matched[i];
        proof {
            assert(mv.take(i + 1).drop_last() =~= mv.take(i as int));
            assert(mv.take(i + 1).last() == mv[i as int]);
        }
        let skip = match self_range {
            Some(sr) => sr == *range,
            None => false,
        };
        if !skip {
            let n = match name {
                Some(x) => Some(x.clone()),
                None => None,
            };
            r.push(n);
            proof {
                assert(opt_names_view(r@) =~= names_without_self(mv.take(i as int), self_range).push(mv[i as int].1));
            }
        }
        i = i + 1;
    }
    proof {
        assert(mv.take(i as int) =~= mv);
    }
    r
}

} // verus!
