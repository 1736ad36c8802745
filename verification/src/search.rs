use vstd::prelude::*;
use crate::args::{CallArg, CallArgV, CallKeyword, CallKeywordV, args_view, keywords_view};
use crate::types::Ty;

verus! {

/// What a candidate overload's signature offers for unpacked arguments: a `*args`
/// parameter, a `**kwargs` parameter.
#[derive(Debug, Clone, Copy, PartialEq, Eq, Structural)]
pub struct OverloadParams {
    pub has_varargs: bool,
    pub has_kwargs: bool,
}

/// Where the result type of a chosen overload comes from.
#[derive(Debug, Clone, Copy, PartialEq, Eq, Structural)]
pub enum ResultSource {
    /// The call of the overload without the contextual hint.
    Plain,
    /// The call of the overload with the contextual hint.
    Contextual,
    /// Several overloads match and none is preferred: the result is `Any`.
    AmbiguousAny,
}

/// The overload that a search settles on.
#[derive(Debug, Clone, Copy, PartialEq, Eq, Structural)]
pub struct ClosestOutcome {
    /// The candidate's position among the candidates searched.
    pub candidate: usize,
    /// Whether the arguments match it.
    pub matched: bool,
    pub source: ResultSource,
    /// Whether the result type is a union.
    pub res_is_union: bool,
    /// Whether the result type is `Never`.
    pub res_is_never: bool,
}

/// The stage of a search; positions (`pos`, `cand`, `pick`) index the list of matched
/// candidates.
#[derive(Debug, Clone, Copy, PartialEq, Eq, Structural)]
pub enum SearchPhase {
    /// Calling each candidate in turn.
    Calling,
    /// Several candidates match; the arguments are to be materialized.
    Materializing,
    /// Calling matched candidates with materialized arguments, from `pos` on.
    Splitting { pos: usize },
    /// Checking that the result of matched candidate `pos` is equivalent to the first's.
    SpecCheck { pos: usize },
    /// Looking for a result that every other is assignable to; `cand` is the current pick.
    Candidate { pos: usize, cand: usize },
    /// Confirming that the results before `cand` are assignable to its result.
    Confirm { pos: usize, cand: usize },
    /// Calling the chosen candidate with the contextual hint.
    Contextual { pick: usize },
    Done(ClosestOutcome),
}

/// The outside work a search asks for next; indices are positions among the candidates.
#[derive(Debug)]
pub enum SearchAction {
    /// Call the candidate with the arguments, without the hint; report its number of match
    /// errors and its result type.
    Call(usize),
    /// Materialize the arguments against these matched candidates; report whether any
    /// argument changed.
    Materialize(Vec<usize>),
    /// Call the candidate with the materialized arguments; report whether it has match errors.
    CallMaterialized(usize),
    /// Report whether the results of the two candidates are equivalent.
    CheckEquivalent(usize, usize),
    /// Report whether every materialization of the first candidate's result is assignable
    /// to the second candidate's result.
    CheckSubset(usize, usize),
    /// Call the candidate with the hint; report whether it has hard call errors, and its
    /// result type.
    ContextualCall(usize),
    Done(ClosestOutcome),
}

/// Finds the overload that a call matches among candidates (all of a fitting arity), or
/// the one with the fewest errors when none matches, following Python's rules for
/// evaluating calls to overloads: call each candidate; among several matches,
/// prefer those with a parameter for an unpacked argument of unknown length; keep the
/// matches up to the first that accepts every materialization of the arguments; then pick
/// the one whose result every other result is assignable to (or, spec-compliantly, the
/// first, when all results are equivalent), and call it again with the contextual hint.
///
/// The search asks for outside work through [`ClosestOverloadSearch::next_action`] and is
/// told the outcome through the `record_` methods.
pub struct ClosestOverloadSearch {
    params: Vec<OverloadParams>,
    spec_compliant: bool,
    nargs_unknown: bool,
    nkeywords_unknown: bool,
    errors: Vec<usize>,
    plain_union: Vec<bool>,
    plain_never: Vec<bool>,
    matched: Vec<usize>,
    phase: SearchPhase,
    answers: Ghost<Map<(int, int), bool>>,
}

/// The mathematical state of a [`ClosestOverloadSearch`].
pub struct SearchV {
    pub params: Seq<OverloadParams>,
    pub spec_compliant: bool,
    pub nargs_unknown: bool,
    pub nkeywords_unknown: bool,
    /// The number of match errors of each candidate called so far.
    pub errors: Seq<usize>,
    /// Whether the result of each candidate called so far is a union.
    pub plain_union: Seq<bool>,
    /// Whether the result of each candidate called so far is `Never`.
    pub plain_never: Seq<bool>,
    /// The matched candidates still in the running.
    pub matched: Seq<usize>,
    pub phase: SearchPhase,
    /// The answers given to `CheckEquivalent` and `CheckSubset`, by candidate pair.
    pub answers: Map<(int, int), bool>,
}

impl View for ClosestOverloadSearch {
    type V = SearchV;

    closed spec fn view(&self) -> SearchV {
        SearchV {
            params: self.params@,
            spec_compliant: self.spec_compliant,
            nargs_unknown: self.nargs_unknown,
            nkeywords_unknown: self.nkeywords_unknown,
            errors: self.errors@,
            plain_union: self.plain_union@,
            plain_never: self.plain_never@,
            matched: self.matched@,
            phase: self.phase,
            answers: self.answers@,
        }
    }
}

/// Some positional argument is unpacked from a value that is not a tuple of known length,
/// so it supplies an unknown number of arguments.
pub open spec fn args_of_unknown_count(args: Seq<CallArgV>) -> bool {
    exists|i: int| 0 <= i < args.len() && (#[trigger] args[i]).star && !(args[i].ty is Tuple)
}

/// Some keyword argument is unpacked from a value that is not a `TypedDict`, so it
/// supplies unknown keywords.
pub open spec fn keywords_of_unknown_count(kws: Seq<CallKeywordV>) -> bool {
    exists|i: int| 0 <= i < kws.len() && (#[trigger] kws[i]).arg is None && !(kws[i].ty is TypedDict)
}

/// The indices, in order, of the candidates with no match errors.
pub open spec fn zero_error_indices(errors: Seq<usize>) -> Seq<usize>
    decreases errors.len(),
{
    if errors.len() == 0 {
        Seq::empty()
    } else {
        let init = zero_error_indices(errors.drop_last());
        if errors.last() == 0 {
            init.push((errors.len() - 1) as usize)
        } else {
            init
        }
    }
}

/// `c` is the first index with the fewest errors.
pub open spec fn is_first_fewest(errors: Seq<usize>, c: int) -> bool {
    &&& 0 <= c < errors.len()
    &&& forall|j: int| 0 <= j < errors.len() ==> errors[c] <= #[trigger] errors[j]
    &&& forall|j: int| 0 <= j < c ==> #[trigger] errors[j] > errors[c]
}

/// The elements of `ms` whose flag is set, in order.
pub open spec fn keep_flagged(ms: Seq<usize>, flags: Seq<bool>) -> Seq<usize>
    decreases ms.len(),
{
    if ms.len() == 0 {
        Seq::empty()
    } else {
        let init = keep_flagged(ms.drop_last(), flags);
        if flags[ms.last() as int] {
            init.push(ms.last())
        } else {
            init
        }
    }
}

/// If any element of `ms` has its flag set, only those; otherwise all of `ms`.
pub open spec fn retain_if_any(ms: Seq<usize>, flags: Seq<bool>) -> Seq<usize> {
    if keep_flagged(ms, flags).len() > 0 {
        keep_flagged(ms, flags)
    } else {
        ms
    }
}

pub open spec fn varargs_flags(params: Seq<OverloadParams>) -> Seq<bool> {
    params.map_values(|p: OverloadParams| p.has_varargs)
}

pub open spec fn kwargs_flags(params: Seq<OverloadParams>) -> Seq<bool> {
    params.map_values(|p: OverloadParams| p.has_kwargs)
}

/// Step 4: with an unpacked argument of unknown length, keep the matches that have a
/// `*args` parameter if there are any; likewise for keywords and `**kwargs`.
pub open spec fn unpacked_filter(s: SearchV, ms: Seq<usize>) -> Seq<usize> {
    let a = if s.nargs_unknown {
        retain_if_any(ms, varargs_flags(s.params))
    } else {
        ms
    };
    if s.nkeywords_unknown {
        retain_if_any(a, kwargs_flags(s.params))
    } else {
        a
    }
}

/// The outcome for a candidate picked because several match and none is preferred.
pub open spec fn ambiguous_outcome(s: SearchV) -> ClosestOutcome {
    ClosestOutcome {
        candidate: s.matched[0],
        matched: true,
        source: ResultSource::AmbiguousAny,
        res_is_union: false,
        res_is_never: false,
    }
}

/// The state in which disambiguation among `s.matched` begins.
pub open spec fn begin_disambiguation(s: SearchV) -> SearchV {
    SearchV {
        phase: if s.matched.len() <= 1 {
            SearchPhase::Contextual { pick: 0 }
        } else if s.spec_compliant {
            SearchPhase::SpecCheck { pos: 1 }
        } else {
            SearchPhase::Candidate { pos: 1, cand: 0 }
        },
        ..s
    }
}

/// The state once every candidate has been called.
pub open spec fn after_calls(s: SearchV) -> SearchV {
    let z = zero_error_indices(s.errors);
    if z.len() == 0 {
        let c = choose|c: int| is_first_fewest(s.errors, c);
        SearchV {
            phase: SearchPhase::Done(
                ClosestOutcome {
                    candidate: c as usize,
                    matched: false,
                    source: ResultSource::Plain,
                    res_is_union: s.plain_union[c],
                    res_is_never: s.plain_never[c],
                },
            ),
            ..s
        }
    } else {
        let ms = if z.len() > 1 {
            unpacked_filter(s, z)
        } else {
            z
        };
        if ms.len() > 1 {
            SearchV { matched: ms, phase: SearchPhase::Materializing, ..s }
        } else {
            begin_disambiguation(SearchV { matched: ms, ..s })
        }
    }
}

/// Each element of `ms` is a candidate without match errors, and `ms` is increasing.
pub open spec fn good_matches(errors: Seq<usize>, ms: Seq<usize>) -> bool {
    &&& ms.len() >= 1
    &&& forall|i: int| 0 <= i < ms.len() ==> #[trigger] ms[i] < errors.len() && errors[ms[i] as int] == 0
    &&& forall|i: int, j: int| 0 <= i < j < ms.len() ==> #[trigger] ms[i] < #[trigger] ms[j]
}

/// The answer recorded for a pair is `true`.
pub open spec fn answered_yes(answers: Map<(int, int), bool>, a: int, b: int) -> bool {
    answers.contains_key((a, b)) && answers[(a, b)]
}

/// The state after recording a candidate's call (see [`ClosestOverloadSearch::record_call`]).
pub open spec fn call_recorded(s: SearchV, num_match_errors: usize, res_is_union: bool, res_is_never: bool) -> SearchV {
    let s1 = SearchV {
        errors: s.errors.push(num_match_errors),
        plain_union: s.plain_union.push(res_is_union),
        plain_never: s.plain_never.push(res_is_never),
        ..s
    };
    if s1.errors.len() < s1.n() {
        s1
    } else {
        after_calls(s1)
    }
}

/// The state after recording whether materialization changed the arguments.
pub open spec fn materialized_recorded(s: SearchV, changed: bool) -> SearchV {
    if changed {
        SearchV { phase: SearchPhase::Splitting { pos: 0 }, ..s }
    } else {
        // The first match accepts the arguments as they are: drop the rest.
        begin_disambiguation(SearchV { matched: s.matched.take(1), ..s })
    }
}

/// The state after recording whether the current match has match errors with the
/// materialized arguments.
pub open spec fn materialized_call_recorded(s: SearchV, has_match_errors: bool) -> SearchV {
    let pos = s.phase->Splitting_pos;
    if !has_match_errors {
        // This match accepts every materialization: drop the matches after it.
        begin_disambiguation(SearchV { matched: s.matched.take(pos + 1), ..s })
    } else if pos + 1 < s.matched.len() {
        SearchV { phase: SearchPhase::Splitting { pos: (pos + 1) as usize }, ..s }
    } else {
        begin_disambiguation(s)
    }
}

/// The state after recording the answer to a `CheckEquivalent` or `CheckSubset` action.
pub open spec fn answer_recorded(s: SearchV, answer: bool) -> SearchV {
    let m = s.matched;
    match s.phase {
        SearchPhase::SpecCheck { pos } => {
            let s1 = SearchV { answers: s.answers.insert((m[0] as int, m[pos as int] as int), answer), ..s };
            if !answer {
                SearchV { phase: SearchPhase::Done(ambiguous_outcome(s1)), ..s1 }
            } else if pos + 1 < m.len() {
                SearchV { phase: SearchPhase::SpecCheck { pos: (pos + 1) as usize }, ..s1 }
            } else {
                SearchV { phase: SearchPhase::Contextual { pick: 0 }, ..s1 }
            }
        },
        SearchPhase::Candidate { pos, cand } => {
            let s1 = SearchV { answers: s.answers.insert((m[pos as int] as int, m[cand as int] as int), answer), ..s };
            let c = if answer { cand } else { pos };
            if pos + 1 < m.len() {
                SearchV { phase: SearchPhase::Candidate { pos: (pos + 1) as usize, cand: c }, ..s1 }
            } else if c == 0 {
                SearchV { phase: SearchPhase::Contextual { pick: 0 }, ..s1 }
            } else {
                SearchV { phase: SearchPhase::Confirm { pos: 0, cand: c }, ..s1 }
            }
        },
        SearchPhase::Confirm { pos, cand } => {
            let s1 = SearchV { answers: s.answers.insert((m[pos as int] as int, m[cand as int] as int), answer), ..s };
            if !answer {
                SearchV { phase: SearchPhase::Done(ambiguous_outcome(s1)), ..s1 }
            } else if pos + 1 < cand {
                SearchV { phase: SearchPhase::Confirm { pos: (pos + 1) as usize, cand }, ..s1 }
            } else {
                SearchV { phase: SearchPhase::Contextual { pick: cand }, ..s1 }
            }
        },
        _ => s,
    }
}

/// The state after recording the contextual call of the chosen candidate: with hard call
/// errors, the call without the hint stands.
pub open spec fn contextual_recorded(s: SearchV, has_hard_call_errors: bool, res_is_union: bool, res_is_never: bool) -> SearchV {
    let c = s.matched[s.phase->pick as int];
    SearchV {
        phase: SearchPhase::Done(
            if has_hard_call_errors {
                ClosestOutcome {
                    candidate: c,
                    matched: true,
                    source: ResultSource::Plain,
                    res_is_union: s.plain_union[c as int],
                    res_is_never: s.plain_never[c as int],
                }
            } else {
                ClosestOutcome {
                    candidate: c,
                    matched: true,
                    source: ResultSource::Contextual,
                    res_is_union,
                    res_is_never,
                }
            },
        ),
        ..s
    }
}

impl SearchV {
    pub open spec fn n(self) -> nat {
        self.params.len()
    }

    /// What holds of a search in every state.
    pub open spec fn wf(self) -> bool {
        &&& self.params.len() >= 1
        &&& self.errors.len() == self.plain_union.len()
        &&& self.errors.len() == self.plain_never.len()
        &&& self.errors.len() <= self.n()
        &&& (self.phase is Calling) == (self.errors.len() < self.n())
        &&& match self.phase {
            SearchPhase::Calling => true,
            SearchPhase::Done(o) => {
                &&& o.matched == (exists|i: int| 0 <= i < self.errors.len() && #[trigger] self.errors[i] == 0)
                &&& !o.matched ==> {
                    &&& is_first_fewest(self.errors, o.candidate as int)
                    &&& o.source == ResultSource::Plain
                }
                &&& o.matched ==> {
                    &&& good_matches(self.errors, self.matched)
                    &&& o.candidate < self.n()
                    &&& self.errors[o.candidate as int] == 0
                }
                &&& o.source == ResultSource::AmbiguousAny ==> o == ambiguous_outcome(self)
                &&& (o.matched && o.source != ResultSource::AmbiguousAny) ==> self.settled_on(o.candidate as int)
            },
            _ => {
                &&& good_matches(self.errors, self.matched)
                &&& match self.phase {
                    SearchPhase::Materializing => self.matched.len() > 1,
                    SearchPhase::Splitting { pos } => pos < self.matched.len(),
                    SearchPhase::SpecCheck { pos } => {
                        &&& self.spec_compliant
                        &&& 1 <= pos < self.matched.len()
                        &&& forall|i: int| 1 <= i < pos ==> answered_yes(self.answers, self.matched[0] as int, #[trigger] self.matched[i] as int)
                    },
                    SearchPhase::Candidate { pos, cand } => {
                        &&& !self.spec_compliant
                        &&& cand < pos < self.matched.len()
                        &&& forall|i: int| cand < i < pos ==> answered_yes(self.answers, #[trigger] self.matched[i] as int, self.matched[cand as int] as int)
                    },
                    SearchPhase::Confirm { pos, cand } => {
                        &&& !self.spec_compliant
                        &&& pos < cand < self.matched.len()
                        &&& forall|i: int| (0 <= i < pos || cand < i < self.matched.len()) ==> answered_yes(self.answers, #[trigger] self.matched[i] as int, self.matched[cand as int] as int)
                    },
                    SearchPhase::Contextual { pick } => {
                        &&& pick < self.matched.len()
                        &&& self.settled_on(self.matched[pick as int] as int)
                    },
                    _ => true,
                }
            },
        }
    }

    /// `c` is the matched candidate that disambiguation settles on: spec-compliantly, the
    /// first match, all results being equivalent to its result; otherwise a match whose
    /// result every other match's result is assignable to.
    pub open spec fn settled_on(self, c: int) -> bool {
        &&& exists|k: int| 0 <= k < self.matched.len() && #[trigger] self.matched[k] == c
        &&& self.spec_compliant ==> {
            &&& c == self.matched[0]
            &&& forall|i: int| 1 <= i < self.matched.len() ==> answered_yes(self.answers, c, #[trigger] self.matched[i] as int)
        }
        &&& !self.spec_compliant ==> forall|i: int|
            0 <= i < self.matched.len() && #[trigger] self.matched[i] != c ==> answered_yes(self.answers, self.matched[i] as int, c)
    }
}

pub proof fn lemma_zero_error_indices(errors: Seq<usize>)
    requires
        errors.len() <= usize::MAX,
    ensures
        forall|i: int| 0 <= i < errors.len() && errors[i] == 0 ==> #[trigger] zero_error_indices(errors).contains(i as usize),
        good_matches(errors, zero_error_indices(errors)) || zero_error_indices(errors).len() == 0,
        forall|i: int| 0 <= i < zero_error_indices(errors).len() ==> #[trigger] zero_error_indices(errors)[i] < errors.len()
            && errors[zero_error_indices(errors)[i] as int] == 0,
        forall|i: int, j: int| 0 <= i < j < zero_error_indices(errors).len() ==> #[trigger] zero_error_indices(errors)[i] < #[trigger] zero_error_indices(errors)[j],
        (zero_error_indices(errors).len() > 0) == (exists|i: int| 0 <= i < errors.len() && #[trigger] errors[i] == 0),
    decreases errors.len(),
{
    if errors.len() > 0 {
        let init = errors.drop_last();
        lemma_zero_error_indices(init);
        let zi = zero_error_indices(init);
        assert forall|i: int| 0 <= i < zi.len() implies #[trigger] zi[i] < init.len() && errors[zi[i] as int] == 0 by {
            assert(init[zi[i] as int] == errors[zi[i] as int]);
        }
        if exists|i: int| 0 <= i < init.len() && #[trigger] init[i] == 0 {
            let i = choose|i: int| 0 <= i < init.len() && #[trigger] init[i] == 0;
            assert(errors[i] == 0);
        }
        if exists|i: int| 0 <= i < errors.len() && #[trigger] errors[i] == 0 {
            let i = choose|i: int| 0 <= i < errors.len() && #[trigger] errors[i] == 0;
            if i < init.len() {
                assert(init[i] == 0);
            }
        }
        assert forall|i: int| 0 <= i < errors.len() && errors[i] == 0 implies #[trigger] zero_error_indices(errors).contains(i as usize) by {
            let z = zero_error_indices(errors);
            if i < init.len() {
                assert(init[i] == 0);
                assert(zi.contains(i as usize));
                let k = choose|k: int| 0 <= k < zi.len() && zi[k] == i as usize;
                assert(z[k] == zi[k]);
            } else {
                assert(z[zi.len() as int] == i as usize);
            }
        }
        if errors.last() == 0 {
            let z = zero_error_indices(errors);
            let x = (errors.len() - 1) as usize;
            assert(z == zi.push(x));
            assert forall|i: int| 0 <= i < z.len() implies #[trigger] z[i] < errors.len() && errors[z[i] as int] == 0 by {
                if i < zi.len() {
                    assert(z[i] == zi[i]);
                }
            }
            assert forall|i: int, j: int| 0 <= i < j < z.len() implies #[trigger] z[i] < #[trigger] z[j] by {
                assert(z[i] == zi[i]);
                if j < zi.len() {
                    assert(z[j] == zi[j]);
                }
            }
        }
    }
}

proof fn lemma_keep_flagged(ms: Seq<usize>, flags: Seq<bool>)
    ensures
        forall|i: int| 0 <= i < keep_flagged(ms, flags).len() ==> exists|j: int| 0 <= j < ms.len() && #[trigger] keep_flagged(ms, flags)[i] == #[trigger] ms[j],
        forall|i: int| 0 <= i < keep_flagged(ms, flags).len() ==> flags[#[trigger] keep_flagged(ms, flags)[i] as int],
        (forall|i: int, j: int| 0 <= i < j < ms.len() ==> #[trigger] ms[i] < #[trigger] ms[j]) ==> (forall|i: int, j: int|
            0 <= i < j < keep_flagged(ms, flags).len() ==> #[trigger] keep_flagged(ms, flags)[i] < #[trigger] keep_flagged(ms, flags)[j]),
        keep_flagged(ms, flags).len() <= ms.len(),
    decreases ms.len(),
{
    if ms.len() > 0 {
        let init = ms.drop_last();
        lemma_keep_flagged(init, flags);
        let k = keep_flagged(init, flags);
        assert forall|i: int| 0 <= i < k.len() implies exists|j: int| 0 <= j < ms.len() && #[trigger] k[i] == #[trigger] ms[j] by {
            let j = choose|j: int| 0 <= j < init.len() && #[trigger] k[i] == #[trigger] init[j];
            assert(ms[j] == init[j]);
        }
        if forall|i: int, j: int| 0 <= i < j < ms.len() ==> #[trigger] ms[i] < #[trigger] ms[j] {
            assert forall|i: int, j: int| 0 <= i < j < init.len() implies #[trigger] init[i] < #[trigger] init[j] by {
                assert(ms[i] < ms[j]);
            }
            assert forall|i: int| 0 <= i < k.len() implies #[trigger] k[i] < ms.last() by {
                let j = choose|j: int| 0 <= j < init.len() && #[trigger] k[i] == #[trigger] init[j];
                assert(ms[j] < ms[ms.len() - 1]);
            }
        }
    }
}

/// Keeping the flagged elements of good matches leaves good matches (if any remain).
proof fn lemma_retain_good(errors: Seq<usize>, ms: Seq<usize>, flags: Seq<bool>)
    requires
        good_matches(errors, ms),
    ensures
        good_matches(errors, retain_if_any(ms, flags)),
        retain_if_any(ms, flags).len() <= ms.len(),
{
    lemma_keep_flagged(ms, flags);
    let k = keep_flagged(ms, flags);
    if k.len() > 0 {
        assert forall|i: int| 0 <= i < k.len() implies #[trigger] k[i] < errors.len() && errors[k[i] as int] == 0 by {
            let j = choose|j: int| 0 <= j < ms.len() && #[trigger] k[i] == #[trigger] ms[j];
        }
    }
}

proof fn lemma_take_good(errors: Seq<usize>, ms: Seq<usize>, n: int)
    requires
        good_matches(errors, ms),
        1 <= n <= ms.len(),
    ensures
        good_matches(errors, ms.take(n)),
{
}

/// Unpacking flags of a candidate list.
fn flags_of(params: &Vec<OverloadParams>, kwargs: bool) -> (r: Vec<bool>)
    ensures
        r@ == (if kwargs {
            kwargs_flags(params@)
        } else {
            varargs_flags(params@)
        }),
{
    let mut r: Vec<bool> = Vec::new();
    let mut i: usize = 0;
    while i < params.len()
        invariant
            i <= params.len(),
            r@ == (if kwargs {
                kwargs_flags(params@)
            } else {
                varargs_flags(params@)
            }).take(i as int),
        decreases params.len() - i,
    {
        let f = if kwargs {
            params[i].has_kwargs
        } else {
            params[i].has_varargs
        };
        r.push(f);
        i = i + 1;
        proof {
            assert(r@ =~= (if kwargs {
                kwargs_flags(params@)
            } else {
                varargs_flags(params@)
            }).take(i as int));
        }
    }
    proof {
        assert(r@ =~= (if kwargs {
            kwargs_flags(params@)
        } else {
            varargs_flags(params@)
        }));
    }
    r
}

/// See [`retain_if_any`].
fn retain_flagged(ms: &Vec<usize>, flags: &Vec<bool>) -> (r: Vec<usize>)
    requires
        forall|i: int| 0 <= i < ms@.len() ==> #[trigger] ms@[i] < flags@.len(),
    ensures
        r@ == retain_if_any(ms@, flags@),
{
    let mut kept: Vec<usize> = Vec::new();
    let mut i: usize = 0;
    while i < ms.len()
        invariant
            i <= ms@.len(),
            forall|k: int| 0 <= k < ms@.len() ==> #[trigger] ms@[k] < flags@.len(),
            kept@ == keep_flagged(ms@.take(i as int), flags@),
        decreases ms.len() - i,
    {
        proof {
            assert(ms@.take(i + 1).drop_last() =~= ms@.take(i as int));
        }
        if flags[ms[i]] {
            kept.push(ms[i]);
        }
        i = i + 1;
    }
    proof {
        assert(ms@.take(i as int) =~= ms@);
    }
    if kept.len() > 0 {
        kept
    } else {
        let mut all: Vec<usize> = Vec::new();
        let mut j: usize = 0;
        while j < ms.len()
            invariant
                j <= ms@.len(),
                all@ == ms@.take(j as int),
            decreases ms.len() - j,
        {
            all.push(ms[j]);
            j = j + 1;
            proof {
                assert(all@ =~= ms@.take(j as int));
            }
        }
        proof {
            assert(all@ =~= ms@);
        }
        all
    }
}

impl ClosestOverloadSearch {
    /// A search among `candidates` (each described by what its signature offers for
    /// unpacked arguments) for a call with these arguments.
    pub fn new(
        candidates: Vec<OverloadParams>,
        args: &Vec<CallArg>,
        keywords: &Vec<CallKeyword>,
        spec_compliant: bool,
    ) -> (r: ClosestOverloadSearch)
        requires
            candidates@.len() >= 1,
        ensures
            r@.wf(),
            r@.params == candidates@,
            r@.spec_compliant == spec_compliant,
            r@.nargs_unknown == args_of_unknown_count(args_view(args@)),
            r@.nkeywords_unknown == keywords_of_unknown_count(keywords_view(keywords@)),
            r@.errors == Seq::<usize>::empty(),
            r@.plain_union == Seq::<bool>::empty(),
            r@.plain_never == Seq::<bool>::empty(),
            r@.matched == Seq::<usize>::empty(),
            r@.phase == SearchPhase::Calling,
            r@.answers == Map::<(int, int), bool>::empty(),
    {
        let ghost av = args_view(args@);
        let ghost kv = keywords_view(keywords@);
        let mut nargs_unknown = false;
        let mut i: usize = 0;
        while i < args.len()
            invariant
                i <= args@.len(),
                av == args_view(args@),
                nargs_unknown == exists|j: int| 0 <= j < i && (#[trigger] av[j]).star && !(av[j].ty is Tuple),
            decreases args.len() - i,
        {
            match &args[i] {
                CallArg::Star(v, _) => {
                    if !v.ty.is_concrete_tuple() {
                        nargs_unknown = true;
                    }
                },
                CallArg::Arg(_) => {},
            }
            proof {
                assert(av[i as int] == args@[i as int]@);
            }
            i = i + 1;
        }
        let mut nkeywords_unknown = false;
        let mut k: usize = 0;
        while k < keywords.len()
            invariant
                k <= keywords@.len(),
                kv == keywords_view(keywords@),
                nkeywords_unknown == exists|j: int| 0 <= j < k && (#[trigger] kv[j]).arg is None && !(kv[j].ty is TypedDict),
            decreases keywords.len() - k,
        {
            if keywords[k].arg.is_none() && !keywords[k].value.ty.is_typed_dict() {
                nkeywords_unknown = true;
            }
            proof {
                assert(kv[k as int] == keywords@[k as int]@);
            }
            k = k + 1;
        }
        let r = ClosestOverloadSearch {
            params: candidates,
            spec_compliant,
            nargs_unknown,
            nkeywords_unknown,
            errors: Vec::new(),
            plain_union: Vec::new(),
            plain_never: Vec::new(),
            matched: Vec::new(),
            phase: SearchPhase::Calling,
            answers: Ghost(Map::empty()),
        };
        proof {
            assert(r@.errors =~= Seq::<usize>::empty());
            assert(r@.plain_union =~= Seq::<bool>::empty());
            assert(r@.plain_never =~= Seq::<bool>::empty());
            assert(r@.matched =~= Seq::<usize>::empty());
        }
        r
    }

    /// The current stage.
    pub fn phase(&self) -> (p: SearchPhase)
        ensures
            p == self@.phase,
    {
        self.phase
    }

    /// The outside work to do next (see [`SearchAction`]).
    pub fn next_action(&self) -> (a: SearchAction)
        requires
            self@.wf(),
        ensures
            match self@.phase {
                SearchPhase::Calling => a == SearchAction::Call(self@.errors.len() as usize),
                SearchPhase::Materializing => a matches SearchAction::Materialize(ms) && ms@ == self@.matched,
                SearchPhase::Splitting { pos } => a == SearchAction::CallMaterialized(self@.matched[pos as int]),
                SearchPhase::SpecCheck { pos } => a == SearchAction::CheckEquivalent(self@.matched[0], self@.matched[pos as int]),
                SearchPhase::Candidate { pos, cand } => a == SearchAction::CheckSubset(self@.matched[pos as int], self@.matched[cand as int]),
                SearchPhase::Confirm { pos, cand } => a == SearchAction::CheckSubset(self@.matched[pos as int], self@.matched[cand as int]),
                SearchPhase::Contextual { pick } => a == SearchAction::ContextualCall(self@.matched[pick as int]),
                SearchPhase::Done(o) => a == SearchAction::Done(o),
            },
    {
        match self.phase {
            SearchPhase::Calling => SearchAction::Call(self.errors.len()),
            SearchPhase::Materializing => {
                let mut ms: Vec<usize> = Vec::new();
                let mut j: usize = 0;
                while j < self.matched.len()
                    invariant
                        j <= self.matched@.len(),
                        ms@ == self.matched@.take(j as int),
                    decreases self.matched.len() - j,
                {
                    ms.push(self.matched[j]);
                    j = j + 1;
                    proof {
                        assert(ms@ =~= self.matched@.take(j as int));
                    }
                }
                proof {
                    assert(ms@ =~= self.matched@);
                }
                SearchAction::Materialize(ms)
            },
            SearchPhase::Splitting { pos } => SearchAction::CallMaterialized(self.matched[pos]),
            SearchPhase::SpecCheck { pos } => SearchAction::CheckEquivalent(self.matched[0], self.matched[pos]),
            SearchPhase::Candidate { pos, cand } => SearchAction::CheckSubset(self.matched[pos], self.matched[cand]),
            SearchPhase::Confirm { pos, cand } => SearchAction::CheckSubset(self.matched[pos], self.matched[cand]),
            SearchPhase::Contextual { pick } => SearchAction::ContextualCall(self.matched[pick]),
            SearchPhase::Done(o) => SearchAction::Done(o),
        }
    }

    /// Moves to disambiguation among the current matches.
    fn begin_disambiguation(&mut self)
        requires
            good_matches(old(self)@.errors, old(self)@.matched),
            old(self)@.errors.len() == old(self)@.n(),
            old(self)@.params.len() >= 1,
            old(self)@.errors.len() == old(self)@.plain_union.len(),
            old(self)@.errors.len() == old(self)@.plain_never.len(),
        ensures
            final(self)@ == begin_disambiguation(old(self)@),
            final(self)@.wf(),
    {
        if self.matched.len() <= 1 {
            self.phase = SearchPhase::Contextual { pick: 0 };
        } else if self.spec_compliant {
            self.phase = SearchPhase::SpecCheck { pos: 1 };
        } else {
            self.phase = SearchPhase::Candidate { pos: 1, cand: 0 };
        }
        proof {
            let s = self@;
            if s.matched.len() <= 1 {
                assert(s.matched.len() == 1);
                assert(s.matched[0] == s.matched[0]);
                assert(s.settled_on(s.matched[0] as int));
            }
        }
    }

    /// Records the outcome of calling the next candidate: its number of match errors and
    /// its result type.
    pub fn record_call(&mut self, num_match_errors: usize, res: &Ty)
        requires
            old(self)@.wf(),
            old(self)@.phase is Calling,
        ensures
            final(self)@.wf(),
            final(self)@ == call_recorded(old(self)@, num_match_errors, res@ is Union, res@ is Never),
    {
        self.errors.push(num_match_errors);
        self.plain_union.push(res.is_union());
        self.plain_never.push(res.is_never());
        if self.errors.len() < self.params.len() {
            return;
        }
        self.finish_calls();
    }

    /// Every candidate has been called: find the matches, or else the closest candidate.
    fn finish_calls(&mut self)
        requires
            old(self)@.errors.len() == old(self)@.n(),
            old(self)@.params.len() >= 1,
            old(self)@.errors.len() == old(self)@.plain_union.len(),
            old(self)@.errors.len() == old(self)@.plain_never.len(),
            old(self)@.phase is Calling,
        ensures
            final(self)@ == after_calls(old(self)@),
            final(self)@.wf(),
    {
        let ghost s = self@;
        let mut matched: Vec<usize> = Vec::new();
        let mut closest: usize = 0;
        let mut i: usize = 0;
        while i < self.errors.len()
            invariant
                self@ == s,
                i <= s.errors.len(),
                s.errors.len() >= 1,
                matched@ == zero_error_indices(s.errors.take(i as int)),
                i > 0 ==> is_first_fewest(s.errors.take(i as int), closest as int),
            decreases self.errors.len() - i,
        {
            proof {
                assert(s.errors.take(i + 1).drop_last() =~= s.errors.take(i as int));
            }
            let n_errors = self.errors[i];
            if n_errors == 0 {
                matched.push(i);
            }
            if i == 0 || self.errors[closest] > n_errors {
                closest = i;
            }
            proof {
                let t = s.errors.take(i + 1);
                assert forall|j: int| 0 <= j < t.len() implies t[closest as int] <= #[trigger] t[j] by {
                    if j < i {
                        assert(t[j] == s.errors.take(i as int)[j]);
                    }
                }
                assert forall|j: int| 0 <= j < closest implies #[trigger] t[j] > t[closest as int] by {
                    assert(t[j] == s.errors.take(i as int)[j]);
                }
            }
            i = i + 1;
        }
        proof {
            assert(s.errors.take(i as int) =~= s.errors);
            lemma_zero_error_indices(s.errors);
        }
        if matched.len() == 0 {
            self.phase = SearchPhase::Done(
                ClosestOutcome {
                    candidate: closest,
                    matched: false,
                    source: ResultSource::Plain,
                    res_is_union: self.plain_union[closest],
                    res_is_never: self.plain_never[closest],
                },
            );
            proof {
                let c = choose|c: int| is_first_fewest(s.errors, c);
                assert(is_first_fewest(s.errors, closest as int));
                assert(c == closest) by {
                    if c < closest {
                        assert(s.errors[c] > s.errors[closest as int]);
                    } else if c > closest {
                        assert(s.errors[closest as int] > s.errors[c]);
                    }
                }
            }
            return;
        }
        proof {
            assert(good_matches(s.errors, matched@));
        }
        if matched.len() > 1 {
            if self.nargs_unknown {
                let flags = flags_of(&self.params, false);
                matched = retain_flagged(&matched, &flags);
                proof {
                    lemma_retain_good(s.errors, zero_error_indices(s.errors), varargs_flags(s.params));
                }
            }
            let ghost a = matched@;
            if self.nkeywords_unknown {
                let flags = flags_of(&self.params, true);
                matched = retain_flagged(&matched, &flags);
                proof {
                    lemma_retain_good(s.errors, a, kwargs_flags(s.params));
                }
            }
        }
        self.matched = matched;
        if self.matched.len() > 1 {
            self.phase = SearchPhase::Materializing;
        } else {
            self.begin_disambiguation();
        }
    }

    /// Records whether materializing the arguments changed any of them.
    pub fn record_materialized(&mut self, changed: bool)
        requires
            old(self)@.wf(),
            old(self)@.phase is Materializing,
        ensures
            final(self)@.wf(),
            final(self)@ == materialized_recorded(old(self)@, changed),
    {
        if changed {
            self.phase = SearchPhase::Splitting { pos: 0 };
        } else {
            self.matched.truncate(1);
            proof {
                lemma_take_good(self@.errors, old(self)@.matched, 1);
            }
            self.begin_disambiguation();
        }
    }

    /// Records whether the current match, called with the materialized arguments, has match
    /// errors.
    pub fn record_materialized_call(&mut self, has_match_errors: bool)
        requires
            old(self)@.wf(),
            old(self)@.phase is Splitting,
        ensures
            final(self)@.wf(),
            final(self)@ == materialized_call_recorded(old(self)@, has_match_errors),
    {
        let pos = match self.phase {
            SearchPhase::Splitting { pos } => pos,
            _ => 0,
        };
        assert(pos < self.matched.len());
        if !has_match_errors {
            self.matched.truncate(pos + 1);
            proof {
                lemma_take_good(self@.errors, old(self)@.matched, pos + 1);
            }
            self.begin_disambiguation();
        } else if pos + 1 < self.matched.len() {
            self.phase = SearchPhase::Splitting { pos: pos + 1 };
        } else {
            self.begin_disambiguation();
        }
    }

    /// Records the answer to a `CheckEquivalent` or `CheckSubset` action.
    pub fn record_answer(&mut self, answer: bool)
        requires
            old(self)@.wf(),
            old(self)@.phase is SpecCheck || old(self)@.phase is Candidate || old(self)@.phase is Confirm,
        ensures
            final(self)@.wf(),
            final(self)@ == answer_recorded(old(self)@, answer),
    {
        let ghost s = self@;
        let n = self.matched.len();
        match self.phase {
            SearchPhase::SpecCheck { pos } => {
                let m0 = self.matched[0];
                let mp = self.matched[pos];
                self.answers = Ghost(self.answers@.insert((m0 as int, mp as int), answer));
                if !answer {
                    self.phase = SearchPhase::Done(
                        ClosestOutcome {
                            candidate: m0,
                            matched: true,
                            source: ResultSource::AmbiguousAny,
                            res_is_union: false,
                            res_is_never: false,
                        },
                    );
                    proof {
                        assert(exists|i: int| 0 <= i < self@.errors.len() && #[trigger] self@.errors[i] == 0) by {
                            assert(self@.errors[m0 as int] == 0);
                        }
                    }
                } else if pos + 1 < n {
                    self.phase = SearchPhase::SpecCheck { pos: pos + 1 };
                    proof {
                        let t = self@;
                        assert forall|i: int| 1 <= i < pos + 1 implies answered_yes(t.answers, t.matched[0] as int, #[trigger] t.matched[i] as int) by {
                            if i < pos {
                                assert(answered_yes(s.answers, s.matched[0] as int, s.matched[i] as int));
                                assert(s.matched[i] != s.matched[pos as int]);
                            }
                        }
                    }
                } else {
                    self.phase = SearchPhase::Contextual { pick: 0 };
                    proof {
                        let t = self@;
                        assert forall|i: int| 1 <= i < t.matched.len() implies answered_yes(t.answers, t.matched[0] as int, #[trigger] t.matched[i] as int) by {
                            if i < pos {
                                assert(answered_yes(s.answers, s.matched[0] as int, s.matched[i] as int));
                                assert(s.matched[i] != s.matched[pos as int]);
                            }
                        }
                        assert(t.matched[0] == t.matched[0]);
                    }
                }
            },
            SearchPhase::Candidate { pos, cand } => {
                let mp = self.matched[pos];
                let mc = self.matched[cand];
                self.answers = Ghost(self.answers@.insert((mp as int, mc as int), answer));
                let c = if answer { cand } else { pos };
                proof {
                    let t = self@;
                    assert forall|i: int| c < i < pos + 1 implies answered_yes(t.answers, #[trigger] t.matched[i] as int, t.matched[c as int] as int) by {
                        if i < pos {
                            assert(answered_yes(s.answers, s.matched[i] as int, s.matched[cand as int] as int));
                            assert(s.matched[i] != s.matched[pos as int]);
                        }
                    }
                }
                if pos + 1 < n {
                    self.phase = SearchPhase::Candidate { pos: pos + 1, cand: c };
                } else if c == 0 {
                    self.phase = SearchPhase::Contextual { pick: 0 };
                    proof {
                        let t = self@;
                        assert forall|i: int| 0 <= i < t.matched.len() && #[trigger] t.matched[i] != t.matched[0] implies answered_yes(t.answers, t.matched[i] as int, t.matched[0] as int) by {
                            assert(i > 0);
                        }
                        assert(t.matched[0] == t.matched[0]);
                    }
                } else {
                    self.phase = SearchPhase::Confirm { pos: 0, cand: c };
                }
            },
            SearchPhase::Confirm { pos, cand } => {
                let mp = self.matched[pos];
                let mc = self.matched[cand];
                self.answers = Ghost(self.answers@.insert((mp as int, mc as int), answer));
                proof {
                    let t = self@;
                    if answer {
                        assert forall|i: int| (0 <= i < pos + 1 || cand < i < t.matched.len()) implies answered_yes(t.answers, #[trigger] t.matched[i] as int, t.matched[cand as int] as int) by {
                            if i != pos {
                                assert(answered_yes(s.answers, s.matched[i] as int, s.matched[cand as int] as int));
                                assert(s.matched[i] != s.matched[pos as int]);
                            }
                        }
                    }
                }
                if !answer {
                    self.phase = SearchPhase::Done(
                        ClosestOutcome {
                            candidate: self.matched[0],
                            matched: true,
                            source: ResultSource::AmbiguousAny,
                            res_is_union: false,
                            res_is_never: false,
                        },
                    );
                    proof {
                        let m0 = self@.matched[0];
                        assert(exists|i: int| 0 <= i < self@.errors.len() && #[trigger] self@.errors[i] == 0) by {
                            assert(self@.errors[m0 as int] == 0);
                        }
                    }
                } else if pos + 1 < cand {
                    self.phase = SearchPhase::Confirm { pos: pos + 1, cand };
                } else {
                    self.phase = SearchPhase::Contextual { pick: cand };
                    proof {
                        let t = self@;
                        assert forall|i: int| 0 <= i < t.matched.len() && #[trigger] t.matched[i] != t.matched[cand as int] implies answered_yes(t.answers, t.matched[i] as int, t.matched[cand as int] as int) by {
                            assert(i != cand);
                        }
                        assert(t.matched[cand as int] == t.matched[cand as int]);
                    }
                }
            },
            _ => {},
        }
    }

    /// Records the outcome of calling the chosen candidate with the hint: whether it has
    /// hard call errors (then the call without the hint stands) and its result type.
    pub fn record_contextual(&mut self, has_hard_call_errors: bool, res: &Ty)
        requires
            old(self)@.wf(),
            old(self)@.phase is Contextual,
        ensures
            final(self)@.wf(),
            final(self)@ == contextual_recorded(old(self)@, has_hard_call_errors, res@ is Union, res@ is Never),
    {
        let pick = match self.phase {
            SearchPhase::Contextual { pick } => pick,
            _ => 0,
        };
        let c = self.matched[pick];
        let outcome = if has_hard_call_errors {
            ClosestOutcome {
                candidate: c,
                matched: true,
                source: ResultSource::Plain,
                res_is_union: self.plain_union[c],
                res_is_never: self.plain_never[c],
            }
        } else {
            ClosestOutcome {
                candidate: c,
                matched: true,
                source: ResultSource::Contextual,
                res_is_union: res.is_union(),
                res_is_never: res.is_never(),
            }
        };
        self.phase = SearchPhase::Done(outcome);
        proof {
            assert(self@.errors[c as int] == 0);
        }
    }
}

/// Whether an argument is materialized when several overloads match: always when
/// `spec_compliant`; otherwise only when the matched overloads may expect different types
/// for it — when none has a parameter for it that can be found, or when the parameter types
/// found are not all equivalent to the first (`equivalent_to_first` answers, for each type
/// found after the first, whether it is equivalent to the first).
pub open spec fn materializes(spec_compliant: bool, found_any: bool, equivalent_to_first: Seq<bool>) -> bool {
    spec_compliant || !found_any || exists|i: int| 0 <= i < equivalent_to_first.len() && !(#[trigger] equivalent_to_first[i])
}

/// See [`materializes`].
pub fn should_materialize(spec_compliant: bool, found_any: bool, equivalent_to_first: &Vec<bool>) -> (r: bool)
    ensures
        r == materializes(spec_compliant, found_any, equivalent_to_first@),
{
    if spec_compliant {
        return true;
    }
    if !found_any {
        // Without the expected type, assume that there may be several.
        return true;
    }
    let mut i: usize = 0;
    while i < equivalent_to_first.len()
        invariant
            i <= equivalent_to_first@.len(),
            forall|j: int| 0 <= j < i ==> #[trigger] equivalent_to_first@[j],
        decreases equivalent_to_first.len() - i,
    {
        if !equivalent_to_first[i] {
            return true;
        }
        i = i + 1;
    }
    false
}

/// How a finished search ends. It matches exactly when some candidate has no match
/// errors. Unmatched, it settles on the first candidate with the fewest errors. Matched, it
/// settles on a candidate without errors; when several candidates match and none is
/// preferred, that is the first of them and the result is `Any`; otherwise disambiguation
/// settled on it (see [`SearchV::settled_on`]).
pub proof fn lemma_search_outcome(s: SearchV)
    requires
        s.wf(),
        s.phase is Done,
    ensures
        ({
            let o = s.phase->Done_0;
            &&& o.matched == (exists|i: int| 0 <= i < s.errors.len() && #[trigger] s.errors[i] == 0)
            &&& s.errors.len() == s.params.len()
            &&& o.candidate < s.params.len()
            &&& !o.matched ==> is_first_fewest(s.errors, o.candidate as int) && o.source == ResultSource::Plain
            &&& o.matched ==> s.errors[o.candidate as int] == 0
            &&& o.source == ResultSource::AmbiguousAny ==> o.candidate == s.matched[0] && !o.res_is_union && !o.res_is_never
            &&& (o.matched && o.source != ResultSource::AmbiguousAny) ==> s.settled_on(o.candidate as int)
        }),
{
}

/// A search that is not disambiguating spec-compliantly settles on a match whose result
/// every other remaining match's result is assignable to (every materialization of it).
pub proof fn lemma_settled_result_is_widest(s: SearchV)
    requires
        s.wf(),
        s.phase is Done,
        s.phase->Done_0.matched,
        s.phase->Done_0.source != ResultSource::AmbiguousAny,
        !s.spec_compliant,
    ensures
        forall|i: int|
            0 <= i < s.matched.len() && #[trigger] s.matched[i] != s.phase->Done_0.candidate ==> answered_yes(
                s.answers,
                s.matched[i] as int,
                s.phase->Done_0.candidate as int,
            ),
{
}

/// A spec-compliant search settles on the first remaining match, and only when every
/// remaining match's result is equivalent to its result.
pub proof fn lemma_spec_compliant_picks_first(s: SearchV)
    requires
        s.wf(),
        s.phase is Done,
        s.phase->Done_0.matched,
        s.phase->Done_0.source != ResultSource::AmbiguousAny,
        s.spec_compliant,
    ensures
        s.phase->Done_0.candidate == s.matched[0],
        forall|i: int| 1 <= i < s.matched.len() ==> answered_yes(s.answers, s.matched[0] as int, #[trigger] s.matched[i] as int),
{
}

/// Which unpacked positional arguments make the number of arguments unknown. With no
/// arguments it is known. Adding an argument unpacked from a value whose type is not a tuple
/// of known length (a `tuple[T, ...]`, a list, anything else) makes it unknown, whatever the
/// other arguments; adding a plain argument, or one unpacked from a tuple of known length,
/// leaves it as it was.
pub proof fn lemma_unknown_argument_count(args: Seq<CallArgV>, a: CallArgV)
    ensures
        !args_of_unknown_count(Seq::<CallArgV>::empty()),
        a.star && !(a.ty is Tuple) ==> args_of_unknown_count(args.push(a)),
        a.star && a.ty is UnboundedTuple ==> args_of_unknown_count(args.push(a)),
        (!a.star || a.ty is Tuple) ==> args_of_unknown_count(args.push(a)) == args_of_unknown_count(args),
{
    let pushed = args.push(a);
    if a.star && !(a.ty is Tuple) {
        assert(pushed[args.len() as int] == a);
    }
    if !a.star || a.ty is Tuple {
        if args_of_unknown_count(args) {
            let i = choose|i: int| 0 <= i < args.len() && (#[trigger] args[i]).star && !(args[i].ty is Tuple);
            assert(pushed[i] == args[i]);
        }
        if args_of_unknown_count(pushed) {
            let i = choose|i: int| 0 <= i < pushed.len() && (#[trigger] pushed[i]).star && !(pushed[i].ty is Tuple);
            assert(i < args.len());
            assert(pushed[i] == args[i]);
        }
    }
}

/// Which unpacked keyword arguments make the keywords unknown. With no keyword arguments
/// they are known. Adding a keyword argument unpacked from a value whose type is not a
/// `TypedDict` makes them unknown, whatever the others; adding a named one, or one unpacked
/// from a `TypedDict`, leaves them as they were.
pub proof fn lemma_unknown_keywords(kws: Seq<CallKeywordV>, k: CallKeywordV)
    ensures
        !keywords_of_unknown_count(Seq::<CallKeywordV>::empty()),
        k.arg is None && !(k.ty is TypedDict) ==> keywords_of_unknown_count(kws.push(k)),
        (k.arg is Some || k.ty is TypedDict) ==> keywords_of_unknown_count(kws.push(k)) == keywords_of_unknown_count(kws),
{
    let pushed = kws.push(k);
    if k.arg is None && !(k.ty is TypedDict) {
        assert(pushed[kws.len() as int] == k);
    }
    if k.arg is Some || k.ty is TypedDict {
        if keywords_of_unknown_count(kws) {
            let i = choose|i: int| 0 <= i < kws.len() && (#[trigger] kws[i]).arg is None && !(kws[i].ty is TypedDict);
            assert(pushed[i] == kws[i]);
        }
        if keywords_of_unknown_count(pushed) {
            let i = choose|i: int| 0 <= i < pushed.len() && (#[trigger] pushed[i]).arg is None && !(pushed[i].ty is TypedDict);
            assert(i < kws.len());
            assert(pushed[i] == kws[i]);
        }
    }
}

/// When several overloads match, an argument is left as it is only when the rules are not
/// followed to the letter, some matched overload has a parameter for it, and every
/// parameter type found for it is equivalent to the first one found. Any single parameter
/// type that is not equivalent to the first, wherever it comes among those found, means
/// the argument is materialized.
pub proof fn lemma_materialization_decision(spec_compliant: bool, found_any: bool, equivalent_to_first: Seq<bool>, i: int)
    ensures
        !materializes(spec_compliant, found_any, equivalent_to_first) ==> !spec_compliant && found_any
            && forall|j: int| 0 <= j < equivalent_to_first.len() ==> #[trigger] equivalent_to_first[j],
        0 <= i < equivalent_to_first.len() && !equivalent_to_first[i] ==> materializes(spec_compliant, found_any, equivalent_to_first),
        spec_compliant ==> materializes(spec_compliant, found_any, equivalent_to_first),
        !found_any ==> materializes(spec_compliant, found_any, equivalent_to_first),
        !spec_compliant && found_any && (forall|j: int| 0 <= j < equivalent_to_first.len() ==> #[trigger] equivalent_to_first[j])
            ==> !materializes(spec_compliant, found_any, equivalent_to_first),
{
}

} // verus!
