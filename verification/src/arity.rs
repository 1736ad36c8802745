use vstd::prelude::*;
use crate::args::{CallArg, CallArgV, CallKeyword, CallKeywordV, args_view, keywords_view};

verus! {

/// How many arguments of one kind a signature accepts: at least `min`, and at most `max`
/// when it is bounded.
#[derive(Debug, Clone, Copy, PartialEq, Eq, Structural)]
pub struct ArgCount {
    pub min: usize,
    pub max: Option<usize>,
}

/// The argument counts that a signature accepts: positionally, by keyword, and overall.
#[derive(Debug, Clone, Copy, PartialEq, Eq, Structural)]
pub struct ArgCounts {
    pub positional: ArgCount,
    pub keyword: ArgCount,
    pub overall: ArgCount,
}

/// How far `n` arguments fall outside what `c` accepts: the number missing below the
/// minimum (none when an unpacked argument may supply any number), or the number beyond
/// the maximum, whichever is larger.
pub open spec fn count_mismatch(c: ArgCount, n: int, variadic: bool) -> int {
    let too_few: int = if variadic || n >= c.min { 0 } else { c.min - n };
    let too_many: int = match c.max {
        Some(m) => if n > m { n - m } else { 0 },
        None => 0,
    };
    if too_few >= too_many { too_few } else { too_many }
}

/// `c` accepts `n` arguments (or any number, from below, when variadic).
pub open spec fn count_fits(c: ArgCount, n: int, variadic: bool) -> bool {
    &&& (variadic || n >= c.min)
    &&& match c.max {
        Some(m) => n <= m,
        None => true,
    }
}

/// The number of plain (not unpacked) positional arguments.
pub open spec fn n_plain_args(args: Seq<CallArgV>) -> nat
    decreases args.len(),
{
    if args.len() == 0 {
        0
    } else {
        n_plain_args(args.drop_last()) + if args.last().star { 0nat } else { 1nat }
    }
}

/// The number of named (not unpacked) keyword arguments.
pub open spec fn n_named_keywords(kws: Seq<CallKeywordV>) -> nat
    decreases kws.len(),
{
    if kws.len() == 0 {
        0
    } else {
        n_named_keywords(kws.drop_last()) + if kws.last().arg is Some { 1nat } else { 0nat }
    }
}

/// The positional arguments as counted for arity: the implicit `self` (if any) and the
/// plain positional arguments.
pub open spec fn n_positional(has_self: bool, args: Seq<CallArgV>) -> int {
    (if has_self { 1int } else { 0int }) + n_plain_args(args)
}

/// Some positional argument is unpacked.
pub open spec fn has_varargs(args: Seq<CallArgV>) -> bool {
    n_plain_args(args) < args.len()
}

/// Some keyword argument is unpacked.
pub open spec fn has_kwargs(kws: Seq<CallKeywordV>) -> bool {
    n_named_keywords(kws) < kws.len()
}

/// How far a call falls outside the arity of a signature with `counts`: the positional,
/// keyword, and overall mismatches added up. Unpacked arguments are not counted; they make
/// any shortfall below a minimum acceptable. Zero exactly when the arity fits.
pub open spec fn arity_mismatch(counts: ArgCounts, has_self: bool, args: Seq<CallArgV>, kws: Seq<CallKeywordV>) -> int {
    let np = n_positional(has_self, args);
    let nk = n_named_keywords(kws) as int;
    count_mismatch(counts.positional, np, has_varargs(args))
        + count_mismatch(counts.keyword, nk, has_kwargs(kws))
        + count_mismatch(counts.overall, np + nk, has_varargs(args) || has_kwargs(kws))
}

/// The arity of a call fits a signature.
pub open spec fn arity_fits(counts: ArgCounts, has_self: bool, args: Seq<CallArgV>, kws: Seq<CallKeywordV>) -> bool {
    let np = n_positional(has_self, args);
    let nk = n_named_keywords(kws) as int;
    &&& count_fits(counts.positional, np, has_varargs(args))
    &&& count_fits(counts.keyword, nk, has_kwargs(kws))
    &&& count_fits(counts.overall, np + nk, has_varargs(args) || has_kwargs(kws))
}

proof fn lemma_n_plain_args_bound(args: Seq<CallArgV>)
    ensures
        n_plain_args(args) <= args.len(),
    decreases args.len(),
{
    if args.len() > 0 {
        lemma_n_plain_args_bound(args.drop_last());
    }
}

proof fn lemma_n_named_keywords_bound(kws: Seq<CallKeywordV>)
    ensures
        n_named_keywords(kws) <= kws.len(),
    decreases kws.len(),
{
    if kws.len() > 0 {
        lemma_n_named_keywords_bound(kws.drop_last());
    }
}

/// A call's arity mismatch with a signature is zero exactly when the arity fits.
pub proof fn lemma_arity_mismatch_zero(counts: ArgCounts, has_self: bool, args: Seq<CallArgV>, kws: Seq<CallKeywordV>)
    ensures
        arity_mismatch(counts, has_self, args, kws) >= 0,
        (arity_mismatch(counts, has_self, args, kws) == 0) == arity_fits(counts, has_self, args, kws),
{
}

/// Allowing for unpacked arguments never adds to a count's mismatch.
proof fn lemma_variadic_mismatch_le(c: ArgCount, n: int, variadic: bool)
    ensures
        count_mismatch(c, n, true) <= count_mismatch(c, n, variadic),
{
}

/// An unpacked argument never adds to a call's arity mismatch: adding an unpacked positional
/// argument (`*args`), or an unpacked keyword argument (`**kwargs`), leaves the mismatch with
/// any signature the same or smaller.
pub proof fn lemma_unpacked_argument_never_adds_mismatch(
    counts: ArgCounts,
    has_self: bool,
    args: Seq<CallArgV>,
    kws: Seq<CallKeywordV>,
    star: CallArgV,
    star_star: CallKeywordV,
)
    requires
        star.star,
        star_star.arg is None,
    ensures
        arity_mismatch(counts, has_self, args.push(star), kws) <= arity_mismatch(counts, has_self, args, kws),
        arity_mismatch(counts, has_self, args, kws.push(star_star)) <= arity_mismatch(counts, has_self, args, kws),
{
    assert(args.push(star).drop_last() =~= args);
    assert(kws.push(star_star).drop_last() =~= kws);
    lemma_n_plain_args_bound(args);
    lemma_n_named_keywords_bound(kws);
    assert(n_plain_args(args.push(star)) == n_plain_args(args));
    assert(n_named_keywords(kws.push(star_star)) == n_named_keywords(kws));
    let np = n_positional(has_self, args);
    let nk = n_named_keywords(kws) as int;
    lemma_variadic_mismatch_le(counts.positional, np, has_varargs(args));
    lemma_variadic_mismatch_le(counts.keyword, nk, has_kwargs(kws));
    lemma_variadic_mismatch_le(counts.overall, np + nk, has_varargs(args) || has_kwargs(kws));
}

/// The number of plain positional arguments.
fn count_plain_args(args: &Vec<CallArg>) -> (n: usize)
    ensures
        n == n_plain_args(args_view(args@)),
{
    let ghost v = args_view(args@);
    let mut n: usize = 0;
    let mut i: usize = 0;
    while i < args.len()
        invariant
            i <= args.len(),
            v == args_view(args@),
            n == n_plain_args(v.take(i as int)),
            n <= i,
        decreases args.len() - i,
    {
        proof {
            assert(v.take(i + 1).drop_last() =~= v.take(i as int));
        }
        match &args[i] {
            CallArg::Arg(_) => {
                n = n + 1;
            },
            CallArg::Star(..) => {},
        }
        i = i + 1;
    }
    proof {
        assert(v.take(i as int) =~= v);
    }
    n
}

/// The number of named keyword arguments.
fn count_named_keywords(keywords: &Vec<CallKeyword>) -> (n: usize)
    ensures
        n == n_named_keywords(keywords_view(keywords@)),
{
    let ghost v = keywords_view(keywords@);
    let mut n: usize = 0;
    let mut i: usize = 0;
    while i < keywords.len()
        invariant
            i <= keywords.len(),
            v == keywords_view(keywords@),
            n == n_named_keywords(v.take(i as int)),
            n <= i,
        decreases keywords.len() - i,
    {
        proof {
            assert(v.take(i + 1).drop_last() =~= v.take(i as int));
        }
        if keywords[i].arg.is_some() {
            n = n + 1;
        }
        i = i + 1;
    }
    proof {
        assert(v.take(i as int) =~= v);
    }
    n
}

/// See [`count_mismatch`].
fn mismatch_size(count: &ArgCount, n: usize, variadic: bool) -> (r: usize)
    ensures
        r == count_mismatch(*count, n as int, variadic),
{
    // Check for too few arguments.
    let min_mismatch = count.min.saturating_sub(if variadic { count.min } else { n });
    // Check for too many arguments.
    let max_mismatch = n.saturating_sub(
        match count.max {
            Some(m) => m,
            None => n,
        },
    );
    if min_mismatch >= max_mismatch {
        min_mismatch
    } else {
        max_mismatch
    }
}

/// [`arity_mismatch`], when it fits in a `usize` (and the argument counts can be added up).
pub fn checked_arity_mismatch_size(
    expected: &ArgCounts,
    has_self: bool,
    posargs: &Vec<CallArg>,
    keywords: &Vec<CallKeyword>,
) -> (r: Option<usize>)
    ensures
        match r {
            Some(n) => posargs@.len() + keywords@.len() < usize::MAX
                && n == arity_mismatch(*expected, has_self, args_view(posargs@), keywords_view(keywords@)),
            None => !(posargs@.len() + keywords@.len() < usize::MAX
                && arity_mismatch(*expected, has_self, args_view(posargs@), keywords_view(keywords@)) <= usize::MAX),
        },
{
    if posargs.len() >= usize::MAX - keywords.len() {
        return None;
    }
    let n = count_plain_args(posargs);
    proof {
        lemma_n_plain_args_bound(args_view(posargs@));
        lemma_n_named_keywords_bound(keywords_view(keywords@));
    }
    let n_posargs = (if has_self { 1usize } else { 0usize }) + n;
    let has_varargs = posargs.len() > n;
    let n_keywords = count_named_keywords(keywords);
    let has_kwargs = keywords.len() > n_keywords;
    let pos_mismatch = mismatch_size(&expected.positional, n_posargs, has_varargs);
    let kw_mismatch = mismatch_size(&expected.keyword, n_keywords, has_kwargs);
    let overall_mismatch = mismatch_size(&expected.overall, n_posargs + n_keywords, has_varargs || has_kwargs);
    match pos_mismatch.checked_add(kw_mismatch) {
        Some(a) => a.checked_add(overall_mismatch),
        None => None,
    }
}

/// How far a call with these arguments falls outside the arity of a signature with
/// `expected` (see [`arity_mismatch`]); `has_self` is whether an implicit `self` argument
/// comes first. Unpacked arguments are not counted, which keeps the check free of type
/// inference.
pub fn arity_mismatch_size(
    expected: &ArgCounts,
    has_self: bool,
    posargs: &Vec<CallArg>,
    keywords: &Vec<CallKeyword>,
) -> (r: usize)
    requires
        posargs@.len() + keywords@.len() < usize::MAX,
        arity_mismatch(*expected, has_self, args_view(posargs@), keywords_view(keywords@)) <= usize::MAX,
    ensures
        r == arity_mismatch(*expected, has_self, args_view(posargs@), keywords_view(keywords@)),
{
    let n = count_plain_args(posargs);
    proof {
        lemma_n_plain_args_bound(args_view(posargs@));
        lemma_n_named_keywords_bound(keywords_view(keywords@));
    }
    let n_posargs = (if has_self { 1usize } else { 0usize }) + n;
    let has_varargs = posargs.len() > n;
    let n_keywords = count_named_keywords(keywords);
    let has_kwargs = keywords.len() > n_keywords;
    let pos_mismatch = mismatch_size(&expected.positional, n_posargs, has_varargs);
    let kw_mismatch = mismatch_size(&expected.keyword, n_keywords, has_kwargs);
    let overall_mismatch = mismatch_size(&expected.overall, n_posargs + n_keywords, has_varargs || has_kwargs);
    // The overall mismatch counts some arguments twice; that is fine, since all that matters
    // is whether the sum is zero and how sums compare between overloads.
    pos_mismatch + kw_mismatch + overall_mismatch
}

} // verus!
