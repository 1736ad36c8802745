use vstd::prelude::*;
use crate::args::{CallArg, CallArgV, CallKeyword, CallKeywordV, args_view, keywords_view, copy_args, copy_keywords};
use crate::arity::{
    ArgCounts, arity_fits, arity_mismatch, arity_mismatch_size, checked_arity_mismatch_size, lemma_arity_mismatch_zero,
};
use crate::expander::{ArgIdx, ArgList, ArgListV, ArgsExpander, ExpanderV, arg_list_view, arg_lists_view, expand_outcome};
use crate::expand::EXPANSION_LIMIT;
use crate::nonempty::{signatures_into_vec, signatures_try_from_vec, signature_items};
use crate::search::{
    ClosestOutcome, ClosestOverloadSearch, OverloadParams, ResultSource, SearchAction, SearchPhase, SearchV,
    args_of_unknown_count, keywords_of_unknown_count, zero_error_indices, is_first_fewest,
};
use crate::types::Ty;
use vec1::Vec1;

verus! {

/// What overload evaluation reads from an overload's signature.
#[derive(Debug, Clone, Copy, PartialEq, Eq, Structural)]
pub struct OverloadSignature {
    pub arg_counts: ArgCounts,
    pub params: OverloadParams,
}

/// Where the result of an overloaded call comes from. Overloads are named by their index
/// among all the overloads.
#[derive(Debug)]
pub enum CallResult {
    /// No overload accepts the call's arity: the result is an error `Any`.
    ArityMismatch,
    /// The overload found for the call's own arguments.
    Direct(ClosestOutcome),
    /// Every argument list from expansion matched an overload: the result is the union of
    /// their results, and the first list's overload stands for the call. One outcome per list.
    Expanded(Vec<ClosestOutcome>),
    /// The overload found for the call's own arguments, its result narrowed to the union of
    /// the results for the argument lists from expansion.
    Refined(ClosestOutcome, Vec<ClosestOutcome>),
}

/// The mathematical value of a [`CallResult`].
pub enum CallResultV {
    ArityMismatch,
    Direct(ClosestOutcome),
    Expanded(Seq<ClosestOutcome>),
    Refined(ClosestOutcome, Seq<ClosestOutcome>),
}

/// How an overloaded call ends: the overload that stands for it (the match, or the closest
/// overload when there is none), whether the call matched, and where its result comes from.
#[derive(Debug)]
pub struct CallOutcome {
    pub overload: usize,
    pub matched: bool,
    pub result: CallResult,
}

pub struct CallOutcomeV {
    pub overload: usize,
    pub matched: bool,
    pub result: CallResultV,
}

/// The result type of a finished overloaded call.
#[derive(Debug)]
pub enum CallValue {
    /// The error `Any`: no overload matches.
    ErrorAny,
    /// The result of the outcome of one search.
    ResultOf(ClosestOutcome),
    /// The union of the results of these outcomes, in order.
    UnionOf(Vec<ClosestOutcome>),
}

/// The mathematical value of a [`CallValue`].
pub enum CallValueV {
    ErrorAny,
    ResultOf(ClosestOutcome),
    UnionOf(Seq<ClosestOutcome>),
}

pub open spec fn call_value_view(v: CallValue) -> CallValueV {
    match v {
        CallValue::ErrorAny => CallValueV::ErrorAny,
        CallValue::ResultOf(o) => CallValueV::ResultOf(o),
        CallValue::UnionOf(ps) => CallValueV::UnionOf(ps@),
    }
}

/// The result type of a call that ended with `out`: the error `Any` when it did not match
/// (and so is reported as matching no overload); otherwise the result of the search with
/// its own arguments, or, after expansion, the union of the results for the expanded
/// argument lists.
pub open spec fn call_value(out: CallOutcomeV) -> CallValueV {
    if !out.matched {
        CallValueV::ErrorAny
    } else {
        match out.result {
            CallResultV::ArityMismatch => CallValueV::ErrorAny,
            CallResultV::Direct(o) => CallValueV::ResultOf(o),
            CallResultV::Expanded(ps) => CallValueV::UnionOf(ps),
            CallResultV::Refined(_, ps) => CallValueV::UnionOf(ps),
        }
    }
}

/// See [`call_value`].
pub fn result_value(out: &CallOutcome) -> (r: CallValue)
    ensures
        call_value_view(r) == call_value(outcome_view(*out)),
{
    if !out.matched {
        return CallValue::ErrorAny;
    }
    match &out.result {
        CallResult::ArityMismatch => CallValue::ErrorAny,
        CallResult::Direct(o) => CallValue::ResultOf(*o),
        CallResult::Expanded(ps) => CallValue::UnionOf(copy_outcomes(ps)),
        CallResult::Refined(_, ps) => CallValue::UnionOf(copy_outcomes(ps)),
    }
}

/// The stage of an overloaded call.
#[derive(Debug, Clone, Copy, PartialEq, Eq, Structural)]
pub enum CallPhase {
    /// Searching with the call's own arguments.
    Searching,
    /// Searching with the `k`th argument list from the latest expansion.
    Expanding { k: usize },
    /// Deciding whether the expanded results narrow a matched call's result.
    Refining,
    Done,
}

/// The outside work an overloaded call asks for next.
#[derive(Debug)]
pub enum CallAction {
    /// Do `step` (whose candidates are named by overload index) for the call's own arguments
    /// (`list` is `None`) or for the `k`th expanded argument list (`Some(k)`).
    Evaluate { list: Option<usize>, step: SearchAction },
    /// Report whether the union of the results of the expanded lists' overloads is a subtype of
    /// the direct result without being equivalent to it.
    CheckRefinement,
    Done,
}

/// Evaluates a call to an overloaded function, following Python's rules for evaluating
/// calls to overloads: drop the overloads whose arity does not fit; search the rest
/// for a match ([`ClosestOverloadSearch`]); if none matches, expand argument types one
/// argument at a time ([`ArgsExpander`]) and accept the first expansion for which every
/// argument list matches. With `legacy_expansion`, a match whose result is a union may also
/// be narrowed by an expansion in which some list's result is `Never`.
pub struct OverloadCall {
    signatures: Vec<OverloadSignature>,
    has_self: bool,
    args: Vec<CallArg>,
    keywords: Vec<CallKeyword>,
    compatible: Vec<usize>,
    candidates: Vec<OverloadParams>,
    arity_closest: usize,
    legacy_expansion: bool,
    spec_compliant: bool,
    search: Option<ClosestOverloadSearch>,
    direct: Option<ClosestOutcome>,
    matched: bool,
    refine: bool,
    expander: ArgsExpander,
    lists: Vec<ArgList>,
    picks: Vec<ClosestOutcome>,
    phase: CallPhase,
    outcome: Option<CallOutcome>,
}

/// The mathematical state of an [`OverloadCall`].
pub struct CallV {
    pub signatures: Seq<OverloadSignature>,
    pub has_self: bool,
    pub args: Seq<CallArgV>,
    pub keywords: Seq<CallKeywordV>,
    /// The overloads whose arity fits, in order.
    pub compatible: Seq<usize>,
    /// Their descriptions, as searched.
    pub candidates: Seq<OverloadParams>,
    /// The first overload with the smallest arity mismatch.
    pub arity_closest: usize,
    pub legacy_expansion: bool,
    pub spec_compliant: bool,
    pub search: Option<SearchV>,
    /// The outcome of the search with the call's own arguments, once known.
    pub direct: Option<ClosestOutcome>,
    pub matched: bool,
    pub refine: bool,
    pub expander: ExpanderV,
    /// The argument lists from the latest expansion.
    pub lists: Seq<ArgListV>,
    /// The outcomes for the expanded lists searched so far.
    pub picks: Seq<ClosestOutcome>,
    pub phase: CallPhase,
    pub outcome: Option<CallOutcomeV>,
}

pub open spec fn result_view(r: CallResult) -> CallResultV {
    match r {
        CallResult::ArityMismatch => CallResultV::ArityMismatch,
        CallResult::Direct(o) => CallResultV::Direct(o),
        CallResult::Expanded(ps) => CallResultV::Expanded(ps@),
        CallResult::Refined(o, ps) => CallResultV::Refined(o, ps@),
    }
}

pub open spec fn outcome_view(o: CallOutcome) -> CallOutcomeV {
    CallOutcomeV { overload: o.overload, matched: o.matched, result: result_view(o.result) }
}

impl View for OverloadCall {
    type V = CallV;

    closed spec fn view(&self) -> CallV {
        CallV {
            signatures: self.signatures@,
            has_self: self.has_self,
            args: args_view(self.args@),
            keywords: keywords_view(self.keywords@),
            compatible: self.compatible@,
            candidates: self.candidates@,
            arity_closest: self.arity_closest,
            legacy_expansion: self.legacy_expansion,
            spec_compliant: self.spec_compliant,
            search: match self.search {
                Some(s) => Some(s@),
                None => None,
            },
            direct: self.direct,
            matched: self.matched,
            refine: self.refine,
            expander: self.expander@,
            lists: arg_lists_view(self.lists@),
            picks: self.picks@,
            phase: self.phase,
            outcome: match self.outcome {
                Some(o) => Some(outcome_view(o)),
                None => None,
            },
        }
    }
}

/// The expander for a call's own arguments, before any expansion: it starts at the first
/// positional argument (or the first keyword argument when there is none), with the call's
/// argument list alone and the whole budget.
pub open spec fn fresh_expander(args: Seq<CallArgV>, keywords: Seq<CallKeywordV>) -> ExpanderV {
    ExpanderV {
        idx: if args.len() == 0 {
            ArgIdx::Keyword(0)
        } else {
            ArgIdx::Positional(0)
        },
        lists: seq![(args, keywords)],
        gas: EXPANSION_LIMIT as int,
    }
}

/// `c` is the state in which a call of `signatures` with these arguments starts: the
/// overloads of fitting arity are searched first with the call's own arguments (when there
/// are none, the call has already ended), and expansion has not begun.
pub open spec fn started(
    c: CallV,
    signatures: Seq<OverloadSignature>,
    has_self: bool,
    args: Seq<CallArgV>,
    keywords: Seq<CallKeywordV>,
    spec_compliant: bool,
    legacy_expansion: bool,
) -> bool {
    &&& c.signatures == signatures
    &&& c.has_self == has_self
    &&& c.args == args
    &&& c.keywords == keywords
    &&& c.spec_compliant == spec_compliant
    &&& c.legacy_expansion == legacy_expansion
    &&& c.compatible.len() == 0 ==> c.phase == CallPhase::Done
    &&& c.compatible.len() > 0 ==> c.phase == CallPhase::Searching
        && c.search == Some(fresh_search(c.candidates, (args, keywords), spec_compliant))
    &&& c.expander == fresh_expander(args, keywords)
}

/// The arity mismatch of the call with each overload.
pub open spec fn arity_mismatches(
    signatures: Seq<OverloadSignature>,
    has_self: bool,
    args: Seq<CallArgV>,
    keywords: Seq<CallKeywordV>,
) -> Seq<usize> {
    Seq::new(
        signatures.len(),
        |i: int| arity_mismatch(signatures[i].arg_counts, has_self, args, keywords) as usize,
    )
}

/// The arity mismatches can be computed without overflow.
pub open spec fn arity_in_range(
    signatures: Seq<OverloadSignature>,
    has_self: bool,
    args: Seq<CallArgV>,
    keywords: Seq<CallKeywordV>,
) -> bool {
    &&& args.len() + keywords.len() < usize::MAX
    &&& forall|i: int|
        0 <= i < signatures.len() ==> #[trigger] arity_mismatch(signatures[i].arg_counts, has_self, args, keywords)
            <= usize::MAX
}

/// The state of a search that has not started.
pub open spec fn fresh_search(candidates: Seq<OverloadParams>, list: ArgListV, spec_compliant: bool) -> SearchV {
    SearchV {
        params: candidates,
        spec_compliant,
        nargs_unknown: args_of_unknown_count(list.0),
        nkeywords_unknown: keywords_of_unknown_count(list.1),
        errors: Seq::empty(),
        plain_union: Seq::empty(),
        plain_never: Seq::empty(),
        matched: Seq::empty(),
        phase: SearchPhase::Calling,
        answers: Map::empty(),
    }
}

/// A search outcome with its candidate named by overload index.
pub open spec fn to_overload(compatible: Seq<usize>, o: ClosestOutcome) -> ClosestOutcome {
    ClosestOutcome { candidate: compatible[o.candidate as int], ..o }
}

/// The overload that stands for a result.
pub open spec fn standing_overload(c: CallV, r: CallResultV) -> usize {
    match r {
        CallResultV::ArityMismatch => c.arity_closest,
        CallResultV::Direct(o) => o.candidate,
        CallResultV::Expanded(ps) => ps[0].candidate,
        CallResultV::Refined(o, _) => o.candidate,
    }
}

/// The call ends with result `r`; a call with a single overload of fitting arity counts as
/// matched.
pub open spec fn finish(c: CallV, r: CallResultV) -> CallV {
    CallV {
        search: None,
        phase: CallPhase::Done,
        outcome: Some(
            CallOutcomeV {
                overload: standing_overload(c, r),
                matched: c.matched || c.compatible.len() == 1,
                result: r,
            },
        ),
        ..c
    }
}

/// The result the call would end with now.
pub open spec fn current_result(c: CallV) -> CallResultV {
    CallResultV::Direct(c.direct.unwrap())
}

/// Expand one more argument, if the call has not matched (or may still be narrowed), and
/// start searching with the first resulting list; when nothing is left to expand, end.
pub open spec fn expansion_step(c: CallV) -> CallV {
    if !c.matched || c.refine {
        let (e2, r) = expand_outcome(c.expander);
        match r {
            Some(ls) => CallV {
                expander: e2,
                lists: ls,
                picks: Seq::empty(),
                search: Some(fresh_search(c.candidates, ls[0], c.spec_compliant)),
                phase: CallPhase::Expanding { k: 0 },
                ..c
            },
            None => finish(CallV { expander: e2, ..c }, current_result(c)),
        }
    } else {
        finish(c, current_result(c))
    }
}

/// What happens once the current search is done.
pub open spec fn after_search(c: CallV) -> CallV {
    match c.search {
        Some(s) => match s.phase {
            SearchPhase::Done(so) => {
                let o = to_overload(c.compatible, so);
                match c.phase {
                    CallPhase::Searching => expansion_step(
                        CallV {
                            direct: Some(o),
                            matched: o.matched,
                            refine: o.matched && c.legacy_expansion && o.res_is_union,
                            search: None,
                            ..c
                        },
                    ),
                    CallPhase::Expanding { k } => {
                        if !o.matched {
                            // Some list does not match: try expanding the next argument.
                            expansion_step(CallV { search: None, ..c })
                        } else {
                            let picks = c.picks.push(o);
                            if k + 1 < c.lists.len() {
                                CallV {
                                    picks,
                                    search: Some(fresh_search(c.candidates, c.lists[k + 1], c.spec_compliant)),
                                    phase: CallPhase::Expanding { k: (k + 1) as usize },
                                    ..c
                                }
                            } else if c.matched {
                                if exists|i: int| 0 <= i < picks.len() && (#[trigger] picks[i]).res_is_never {
                                    CallV { picks, search: None, phase: CallPhase::Refining, ..c }
                                } else {
                                    expansion_step(CallV { picks, search: None, ..c })
                                }
                            } else {
                                finish(CallV { picks, matched: true, ..c }, CallResultV::Expanded(picks))
                            }
                        }
                    },
                    _ => c,
                }
            },
            _ => c,
        },
        None => c,
    }
}

/// `r` is a result the call may end with in state `c`.
pub open spec fn result_ok(c: CallV, r: CallResultV) -> bool {
    match r {
        CallResultV::ArityMismatch => c.compatible.len() == 0 && !c.matched,
        CallResultV::Direct(o) => {
            &&& c.compatible.len() >= 1
            &&& c.direct == Some(o)
            &&& c.matched == o.matched
            // Unmatched, or matched with a union result still to be narrowed, the call keeps
            // the direct result only once expansion has nothing more to give.
            &&& (!c.matched || c.refine) ==> c.expander.exhausted()
        },
        CallResultV::Expanded(ps) => {
            &&& c.compatible.len() >= 1
            &&& c.direct matches Some(d) && !d.matched
            &&& c.matched
            &&& ps.len() >= 1
            &&& forall|i: int| 0 <= i < ps.len() ==> (#[trigger] ps[i]).matched
            &&& forall|i: int| 0 <= i < ps.len() ==> (#[trigger] ps[i]).candidate < c.signatures.len()
        },
        CallResultV::Refined(o, ps) => {
            &&& c.compatible.len() >= 1
            &&& c.direct == Some(o)
            &&& o.matched && o.res_is_union && c.legacy_expansion
            &&& c.matched
            &&& ps.len() >= 1
            &&& forall|i: int| 0 <= i < ps.len() ==> (#[trigger] ps[i]).matched
            &&& forall|i: int| 0 <= i < ps.len() ==> (#[trigger] ps[i]).candidate < c.signatures.len()
            &&& exists|i: int| 0 <= i < ps.len() && (#[trigger] ps[i]).res_is_never
        },
    }
}

impl CallV {
    /// What holds of an overloaded call whatever its stage.
    pub open spec fn base_wf(self) -> bool {
        let mm = arity_mismatches(self.signatures, self.has_self, self.args, self.keywords);
        &&& self.signatures.len() >= 1
        &&& self.signatures.len() <= usize::MAX
        &&& arity_in_range(self.signatures, self.has_self, self.args, self.keywords)
        &&& self.compatible == zero_error_indices(mm)
        &&& self.candidates == self.compatible.map_values(|i: usize| self.signatures[i as int].params)
        &&& is_first_fewest(mm, self.arity_closest as int)
        &&& self.expander.wf()
        &&& forall|i: int| 0 <= i < self.compatible.len() ==> #[trigger] self.compatible[i] < self.signatures.len()
        &&& self.refine ==> self.matched && self.legacy_expansion && (self.direct matches Some(d) && d.matched && d.res_is_union)
        &&& self.direct matches Some(d) ==> (d.matched ==> self.matched) && d.candidate < self.signatures.len()
        &&& forall|i: int| 0 <= i < self.picks.len() ==> (#[trigger] self.picks[i]).candidate < self.signatures.len()
    }

    /// What holds of an overloaded call in every state.
    pub open spec fn wf(self) -> bool {
        &&& self.base_wf()
        &&& match self.phase {
            CallPhase::Searching => {
                &&& self.compatible.len() >= 1
                &&& self.search matches Some(s) && s.wf() && s.params == self.candidates
                    && s.spec_compliant == self.spec_compliant
                &&& self.direct is None
                &&& !self.matched
                &&& !self.refine
            },
            CallPhase::Expanding { k } => {
                &&& self.compatible.len() >= 1
                &&& k < self.lists.len()
                &&& self.picks.len() == k
                &&& self.search matches Some(s) && s.wf() && s.params == self.candidates
                    && s.spec_compliant == self.spec_compliant
                &&& self.direct matches Some(d) && d.matched == self.matched
                &&& self.matched ==> self.refine
                &&& forall|i: int| 0 <= i < self.picks.len() ==> (#[trigger] self.picks[i]).matched
            },
            CallPhase::Refining => {
                &&& self.compatible.len() >= 1
                &&& self.search is None
                &&& self.matched && self.refine
                &&& self.direct matches Some(d) && d.matched == self.matched
                &&& self.picks.len() >= 1
                &&& forall|i: int| 0 <= i < self.picks.len() ==> (#[trigger] self.picks[i]).matched
                &&& exists|i: int| 0 <= i < self.picks.len() && (#[trigger] self.picks[i]).res_is_never
            },
            CallPhase::Done => {
                &&& self.search is None
                &&& self.outcome matches Some(out) && result_ok(self, out.result)
                    && out.overload == standing_overload(self, out.result)
                    && out.matched == (self.matched || self.compatible.len() == 1)
                    && out.overload < self.signatures.len()
            },
        }
    }
}

impl OverloadCall {
    /// The overloaded call of `signatures` with these arguments; `has_self` is whether an
    /// implicit `self` argument comes first.
    pub fn new(
        overloads: Vec1<OverloadSignature>,
        has_self: bool,
        args: Vec<CallArg>,
        keywords: Vec<CallKeyword>,
        spec_compliant: bool,
        legacy_expansion: bool,
    ) -> (r: OverloadCall)
        requires
            arity_in_range(signature_items(overloads), has_self, args_view(args@), keywords_view(keywords@)),
        ensures
            r@.wf(),
            started(
                r@,
                signature_items(overloads),
                has_self,
                args_view(args@),
                keywords_view(keywords@),
                spec_compliant,
                legacy_expansion,
            ),
    {
        let signatures = signatures_into_vec(overloads);
        let ghost av = args_view(args@);
        let ghost kv = keywords_view(keywords@);
        let ghost mm = arity_mismatches(signatures@, has_self, av, kv);
        // Step 1: drop the overloads whose arity does not fit, remembering the closest one.
        let mut compatible: Vec<usize> = Vec::new();
        let mut compatible_sigs: Vec<OverloadSignature> = Vec::new();
        let mut closest: usize = 0;
        let mut closest_size: usize = 0;
        let mut i: usize = 0;
        while i < signatures.len()
            invariant
                i <= signatures@.len(),
                signatures@.len() >= 1,
                av == args_view(args@),
                kv == keywords_view(keywords@),
                mm == arity_mismatches(signatures@, has_self, av, kv),
                arity_in_range(signatures@, has_self, av, kv),
                compatible@ == zero_error_indices(mm.take(i as int)),
                compatible_sigs@ == compatible@.map_values(|j: usize| signatures@[j as int]),
                i > 0 ==> is_first_fewest(mm.take(i as int), closest as int) && closest_size == mm[closest as int],
                forall|j: int| 0 <= j < compatible@.len() ==> #[trigger] compatible@[j] < i,
            decreases signatures.len() - i,
        {
            proof {
                assert(mm.take(i + 1).drop_last() =~= mm.take(i as int));
            }
            let size = arity_mismatch_size(&signatures[i].arg_counts, has_self, &args, &keywords);
            proof {
                assert(size == mm[i as int]);
            }
            if size == 0 {
                compatible.push(i);
                compatible_sigs.push(signatures[i]);
                proof {
                    assert(compatible_sigs@ =~= compatible@.map_values(|j: usize| signatures@[j as int]));
                }
            }
            if i == 0 || closest_size > size {
                closest = i;
                closest_size = size;
            }
            proof {
                let t = mm.take(i + 1);
                assert forall|j: int| 0 <= j < t.len() implies t[closest as int] <= #[trigger] t[j] by {
                    if j < i {
                        assert(t[j] == mm.take(i as int)[j]);
                    }
                }
                assert forall|j: int| 0 <= j < closest implies #[trigger] t[j] > t[closest as int] by {
                    assert(t[j] == mm.take(i as int)[j]);
                }
            }
            i = i + 1;
        }
        proof {
            assert(mm.take(i as int) =~= mm);
        }
        let expander = ArgsExpander::new(copy_args(&args), copy_keywords(&keywords));
        match signatures_try_from_vec(compatible_sigs) {
            Err(_) => {
                let candidates: Vec<OverloadParams> = Vec::new();
                proof {
                    assert(candidates@ =~= compatible@.map_values(|j: usize| signatures@[j as int].params));
                }
                let r = OverloadCall {
                    signatures,
                    has_self,
                    args,
                    keywords,
                    compatible,
                    candidates,
                    arity_closest: closest,
                    legacy_expansion,
                    spec_compliant,
                    search: None,
                    direct: None,
                    matched: false,
                    refine: false,
                    expander,
                    lists: Vec::new(),
                    picks: Vec::new(),
                    phase: CallPhase::Done,
                    outcome: Some(CallOutcome { overload: closest, matched: false, result: CallResult::ArityMismatch }),
                };
                r
            },
            Ok(nonempty) => {
                // Step 2 on: search the overloads whose arity fits.
                let candidates = params_of(&signatures_into_vec(nonempty));
                proof {
                    assert(candidates@ =~= compatible@.map_values(|j: usize| signatures@[j as int].params));
                }
                let search = ClosestOverloadSearch::new(copy_params(&candidates), &args, &keywords, spec_compliant);
                let r = OverloadCall {
                    signatures,
                    has_self,
                    args,
                    keywords,
                    compatible,
                    candidates,
                    arity_closest: closest,
                    legacy_expansion,
                    spec_compliant,
                    search: Some(search),
                    direct: None,
                    matched: false,
                    refine: false,
                    expander,
                    lists: Vec::new(),
                    picks: Vec::new(),
                    phase: CallPhase::Searching,
                    outcome: None,
                };
                r
            },
        }
    }
}

impl OverloadCall {
    /// The overloaded call of `signatures` with these arguments, when the argument counts
    /// and every overload's arity mismatch fit in a `usize`; `None` otherwise.
    pub fn try_new(
        overloads: Vec1<OverloadSignature>,
        has_self: bool,
        args: Vec<CallArg>,
        keywords: Vec<CallKeyword>,
        spec_compliant: bool,
        legacy_expansion: bool,
    ) -> (r: Option<OverloadCall>)
        ensures
            r is Some <==> arity_in_range(signature_items(overloads), has_self, args_view(args@), keywords_view(keywords@)),
            r matches Some(c) ==> c@.wf() && started(
                c@,
                signature_items(overloads),
                has_self,
                args_view(args@),
                keywords_view(keywords@),
                spec_compliant,
                legacy_expansion,
            ),
    {
        let signatures = signatures_into_vec(overloads);
        let ghost sigs = signatures@;
        let ghost av = args_view(args@);
        let ghost kv = keywords_view(keywords@);
        let mut i: usize = 0;
        while i < signatures.len()
            invariant
                i <= signatures@.len(),
                signatures@ == sigs,
                sigs == signature_items(overloads),
                av == args_view(args@),
                kv == keywords_view(keywords@),
                av.len() + kv.len() < usize::MAX || i == 0,
                forall|j: int| 0 <= j < i ==> #[trigger] arity_mismatch(sigs[j].arg_counts, has_self, av, kv) <= usize::MAX,
            decreases signatures.len() - i,
        {
            match checked_arity_mismatch_size(&signatures[i].arg_counts, has_self, &args, &keywords) {
                Some(_) => {},
                None => {
                    proof {
                        assert(av.len() == args@.len());
                        assert(kv.len() == keywords@.len());
                        assert(arity_mismatch(sigs[i as int].arg_counts, has_self, av, kv) > usize::MAX
                            || av.len() + kv.len() >= usize::MAX);
                    }
                    return None;
                },
            }
            i = i + 1;
        }
        proof {
            assert(av.len() == args@.len());
            assert(kv.len() == keywords@.len());
            assert(arity_in_range(sigs, has_self, av, kv));
        }
        match signatures_try_from_vec(signatures) {
            Ok(nonempty) => Some(OverloadCall::new(nonempty, has_self, args, keywords, spec_compliant, legacy_expansion)),
            Err(_) => None,
        }
    }
}

/// `action`, a search's next action, with its candidates named by overload index.
pub open spec fn overload_step(compatible: Seq<usize>, s: SearchV, step: SearchAction) -> bool {
    match s.phase {
        SearchPhase::Calling => step == SearchAction::Call(compatible[s.errors.len() as int]),
        SearchPhase::Materializing => step matches SearchAction::Materialize(ms) && ms@ == s.matched.map_values(
            |m: usize| compatible[m as int],
        ),
        SearchPhase::Splitting { pos } => step == SearchAction::CallMaterialized(compatible[s.matched[pos as int] as int]),
        SearchPhase::SpecCheck { pos } => step == SearchAction::CheckEquivalent(
            compatible[s.matched[0] as int],
            compatible[s.matched[pos as int] as int],
        ),
        SearchPhase::Candidate { pos, cand } => step == SearchAction::CheckSubset(
            compatible[s.matched[pos as int] as int],
            compatible[s.matched[cand as int] as int],
        ),
        SearchPhase::Confirm { pos, cand } => step == SearchAction::CheckSubset(
            compatible[s.matched[pos as int] as int],
            compatible[s.matched[cand as int] as int],
        ),
        SearchPhase::Contextual { pick } => step == SearchAction::ContextualCall(compatible[s.matched[pick as int] as int]),
        SearchPhase::Done(o) => step == SearchAction::Done(to_overload(compatible, o)),
    }
}

impl OverloadCall {
    /// The current stage.
    pub fn phase(&self) -> (p: CallPhase)
        ensures
            p == self@.phase,
    {
        self.phase
    }

    /// How the call ended, once it has.
    pub fn outcome(&self) -> (r: Option<&CallOutcome>)
        ensures
            match r {
                Some(o) => self@.outcome == Some(outcome_view(*o)),
                None => self@.outcome is None,
            },
    {
        match &self.outcome {
            Some(o) => Some(o),
            None => None,
        }
    }

    /// The outcome of the search with the call's own arguments, once it has ended.
    pub fn direct_outcome(&self) -> (r: Option<ClosestOutcome>)
        ensures
            r == self@.direct,
    {
        self.direct
    }

    /// The outcomes found so far for the argument lists of the latest expansion, one per
    /// list, in order; while refining, one for each list.
    pub fn picks(&self) -> (r: &Vec<ClosestOutcome>)
        ensures
            r@ == self@.picks,
    {
        &self.picks
    }

    /// The arguments of the call (`list` is `None`) or of the `k`th expanded list.
    pub fn arg_list(&self, list: Option<usize>) -> (r: (&Vec<CallArg>, &Vec<CallKeyword>))
        requires
            list matches Some(k) ==> k < self@.lists.len(),
        ensures
            match list {
                None => args_view(r.0@) == self@.args && keywords_view(r.1@) == self@.keywords,
                Some(k) => (args_view(r.0@), keywords_view(r.1@)) == self@.lists[k as int],
            },
    {
        match list {
            None => (&self.args, &self.keywords),
            Some(k) => (&self.lists[k].0, &self.lists[k].1),
        }
    }

    /// The outside work to do next (see [`CallAction`]).
    pub fn next_action(&self) -> (a: CallAction)
        requires
            self@.wf(),
        ensures
            match self@.phase {
                CallPhase::Searching => a matches CallAction::Evaluate { list, step } && list is None
                    && overload_step(self@.compatible, self@.search.unwrap(), step),
                CallPhase::Expanding { k } => a matches CallAction::Evaluate { list, step } && list == Some(k)
                    && overload_step(self@.compatible, self@.search.unwrap(), step),
                CallPhase::Refining => a is CheckRefinement,
                CallPhase::Done => a is Done,
            },
    {
        match self.phase {
            CallPhase::Refining => CallAction::CheckRefinement,
            CallPhase::Done => CallAction::Done,
            _ => {
                let list = match self.phase {
                    CallPhase::Expanding { k } => Some(k),
                    _ => None,
                };
                match &self.search {
                    Some(s) => {
                        let step = self.overload_step(s.next_action());
                        CallAction::Evaluate { list, step }
                    },
                    None => CallAction::Done,
                }
            },
        }
    }

    /// A search action with its candidates named by overload index.
    fn overload_step(&self, a: SearchAction) -> (r: SearchAction)
        requires
            self@.base_wf(),
            self@.search matches Some(s) && s.wf() && s.params == self@.candidates,
            match self@.search.unwrap().phase {
                SearchPhase::Calling => a == SearchAction::Call(self@.search.unwrap().errors.len() as usize),
                SearchPhase::Materializing => a matches SearchAction::Materialize(ms) && ms@ == self@.search.unwrap().matched,
                SearchPhase::Splitting { pos } => a == SearchAction::CallMaterialized(self@.search.unwrap().matched[pos as int]),
                SearchPhase::SpecCheck { pos } => a == SearchAction::CheckEquivalent(self@.search.unwrap().matched[0], self@.search.unwrap().matched[pos as int]),
                SearchPhase::Candidate { pos, cand } => a == SearchAction::CheckSubset(self@.search.unwrap().matched[pos as int], self@.search.unwrap().matched[cand as int]),
                SearchPhase::Confirm { pos, cand } => a == SearchAction::CheckSubset(self@.search.unwrap().matched[pos as int], self@.search.unwrap().matched[cand as int]),
                SearchPhase::Contextual { pick } => a == SearchAction::ContextualCall(self@.search.unwrap().matched[pick as int]),
                SearchPhase::Done(o) => a == SearchAction::Done(o),
            },
        ensures
            overload_step(self@.compatible, self@.search.unwrap(), r),
    {
        let ghost s = self@.search.unwrap();
        let ncand = self.candidates.len();
        let ncompat = self.compatible.len();
        proof {
            assert(self@.candidates.len() == self@.compatible.len());
            assert(s.params.len() == self@.compatible.len());
        }
        match a {
            SearchAction::Call(i) => SearchAction::Call(self.compatible[i]),
            SearchAction::Materialize(ms) => {
                let mut r: Vec<usize> = Vec::new();
                let mut j: usize = 0;
                while j < ms.len()
                    invariant
                        j <= ms@.len(),
                        ms@ == s.matched,
                        s.wf(),
                        !(s.phase is Calling) && !(s.phase is Done),
                        s.params.len() == self@.compatible.len(),
                        self@.compatible == self.compatible@,
                        r@ == ms@.take(j as int).map_values(|m: usize| self@.compatible[m as int]),
                    decreases ms.len() - j,
                {
                    r.push(self.compatible[ms[j]]);
                    j = j + 1;
                    proof {
                        assert(r@ =~= ms@.take(j as int).map_values(|m: usize| self@.compatible[m as int]));
                    }
                }
                proof {
                    assert(ms@.take(j as int) =~= ms@);
                }
                SearchAction::Materialize(r)
            },
            SearchAction::CallMaterialized(i) => SearchAction::CallMaterialized(self.compatible[i]),
            SearchAction::CheckEquivalent(i, j) => SearchAction::CheckEquivalent(self.compatible[i], self.compatible[j]),
            SearchAction::CheckSubset(i, j) => SearchAction::CheckSubset(self.compatible[i], self.compatible[j]),
            SearchAction::ContextualCall(i) => SearchAction::ContextualCall(self.compatible[i]),
            SearchAction::Done(o) => SearchAction::Done(ClosestOutcome { candidate: self.compatible[o.candidate], ..o }),
        }
    }

    /// Ends the call with result `result`.
    fn finish(&mut self, result: CallResult)
        requires
            old(self)@.base_wf(),
            result_ok(old(self)@, result_view(result)),
        ensures
            final(self)@ == finish(old(self)@, result_view(result)),
            final(self)@.wf(),
    {
        let overload = match &result {
            CallResult::ArityMismatch => self.arity_closest,
            CallResult::Direct(o) => o.candidate,
            CallResult::Expanded(ps) => ps[0].candidate,
            CallResult::Refined(o, _) => o.candidate,
        };
        let matched = self.matched || self.compatible.len() == 1;
        self.search = None;
        self.phase = CallPhase::Done;
        self.outcome = Some(CallOutcome { overload, matched, result });
    }

    /// See [`expansion_step`].
    fn expansion_step(&mut self)
        requires
            old(self)@.base_wf(),
            old(self)@.compatible.len() >= 1,
            old(self)@.direct matches Some(d) && d.matched == old(self)@.matched,
        ensures
            final(self)@ == expansion_step(old(self)@),
            final(self)@.wf(),
    {
        let direct = match self.direct {
            Some(d) => d,
            None => {
                return;
            },
        };
        if !self.matched || self.refine {
            match self.expander.expand() {
                Some(lists) => {
                    proof {
                        crate::expander::lemma_expanded_lists_len(
                            old(self)@.expander.lists,
                            old(self)@.expander.idx,
                            crate::expand::expansion(crate::expander::type_at(old(self)@.expander.lists[0], old(self)@.expander.idx)),
                        );
                        lemma_expand_outcome_nonempty(old(self)@.expander);
                    }
                    self.lists = lists;
                    self.picks = Vec::new();
                    let search = ClosestOverloadSearch::new(
                        copy_params(&self.candidates),
                        &self.lists[0].0,
                        &self.lists[0].1,
                        self.spec_compliant,
                    );
                    self.search = Some(search);
                    self.phase = CallPhase::Expanding { k: 0 };
                    proof {
                        assert(self@.picks =~= Seq::<ClosestOutcome>::empty());
                    }
                },
                None => {
                    proof {
                        crate::expander::lemma_expansion_ends(old(self)@.expander);
                    }
                    self.finish(CallResult::Direct(direct));
                },
            }
        } else {
            self.finish(CallResult::Direct(direct));
        }
    }

    /// See [`after_search`].
    #[verifier::rlimit(40)]
    fn after_search(&mut self)
        requires
            old(self)@.wf(),
        ensures
            final(self)@ == after_search(old(self)@),
            final(self)@.wf(),
    {
        let done = match &self.search {
            Some(s) => match s.phase() {
                SearchPhase::Done(o) => Some(o),
                _ => None,
            },
            None => None,
        };
        let so = match done {
            Some(so) => so,
            None => {
                return;
            },
        };
        let ghost sv = self@.search.unwrap();
        proof {
            assert(sv.params.len() == self@.compatible.len());
            assert(so.candidate < self@.compatible.len());
        }
        let o = ClosestOutcome { candidate: self.compatible[so.candidate], ..so };
        match self.phase {
            CallPhase::Searching => {
                self.direct = Some(o);
                self.matched = o.matched;
                self.refine = o.matched && self.legacy_expansion && o.res_is_union;
                self.search = None;
                self.expansion_step();
            },
            CallPhase::Expanding { k } => {
                if !o.matched {
                    // Some expanded list does not match: try the next argument.
                    self.search = None;
                    self.expansion_step();
                } else {
                    self.picks.push(o);
                    assert(k < self.lists.len());
                    if k + 1 < self.lists.len() {
                        let search = ClosestOverloadSearch::new(
                            copy_params(&self.candidates),
                            &self.lists[k + 1].0,
                            &self.lists[k + 1].1,
                            self.spec_compliant,
                        );
                        self.search = Some(search);
                        self.phase = CallPhase::Expanding { k: k + 1 };
                    } else if self.matched {
                        // Adopt the expansion only when some list's result is `Never`, which
                        // drops that member from the union; otherwise try the next argument.
                        let mut dropped_arm = false;
                        let mut i: usize = 0;
                        while i < self.picks.len()
                            invariant
                                i <= self.picks@.len(),
                                dropped_arm == exists|j: int| 0 <= j < i && (#[trigger] self.picks@[j]).res_is_never,
                            decreases self.picks.len() - i,
                        {
                            if self.picks[i].res_is_never {
                                dropped_arm = true;
                            }
                            i = i + 1;
                        }
                        self.search = None;
                        if dropped_arm {
                            self.phase = CallPhase::Refining;
                        } else {
                            self.expansion_step();
                        }
                    } else {
                        self.search = None;
                        self.matched = true;
                        let picks = copy_outcomes(&self.picks);
                        self.finish(CallResult::Expanded(picks));
                    }
                }
            },
            _ => {},
        }
    }

    /// Records the outcome of a `Call` step: the number of match errors and the result type.
    pub fn record_call(&mut self, num_match_errors: usize, res: &Ty)
        requires
            old(self)@.wf(),
            old(self)@.search matches Some(s) && s.phase is Calling,
        ensures
            final(self)@.wf(),
            final(self)@ == after_search(
                CallV {
                    search: Some(crate::search::call_recorded(old(self)@.search.unwrap(), num_match_errors, res@ is Union, res@ is Never)),
                    ..old(self)@
                },
            ),
    {
        let mut current: Option<ClosestOverloadSearch> = None;
        std::mem::swap(&mut current, &mut self.search);
        match current {
            Some(mut s) => {
                s.record_call(num_match_errors, res);
                self.search = Some(s);
            },
            None => {},
        }
        self.after_search();
    }

    /// Records the outcome of a `Materialize` step: whether any argument changed.
    pub fn record_materialized(&mut self, changed: bool)
        requires
            old(self)@.wf(),
            old(self)@.search matches Some(s) && s.phase is Materializing,
        ensures
            final(self)@.wf(),
            final(self)@ == after_search(
                CallV {
                    search: Some(crate::search::materialized_recorded(old(self)@.search.unwrap(), changed)),
                    ..old(self)@
                },
            ),
    {
        let mut current: Option<ClosestOverloadSearch> = None;
        std::mem::swap(&mut current, &mut self.search);
        match current {
            Some(mut s) => {
                s.record_materialized(changed);
                self.search = Some(s);
            },
            None => {},
        }
        self.after_search();
    }

    /// Records the outcome of a `CallMaterialized` step: whether there are match errors.
    pub fn record_materialized_call(&mut self, has_match_errors: bool)
        requires
            old(self)@.wf(),
            old(self)@.search matches Some(s) && s.phase is Splitting,
        ensures
            final(self)@.wf(),
            final(self)@ == after_search(
                CallV {
                    search: Some(crate::search::materialized_call_recorded(old(self)@.search.unwrap(), has_match_errors)),
                    ..old(self)@
                },
            ),
    {
        let mut current: Option<ClosestOverloadSearch> = None;
        std::mem::swap(&mut current, &mut self.search);
        match current {
            Some(mut s) => {
                s.record_materialized_call(has_match_errors);
                self.search = Some(s);
            },
            None => {},
        }
        self.after_search();
    }

    /// Records the answer to a `CheckEquivalent` or `CheckSubset` step.
    pub fn record_answer(&mut self, answer: bool)
        requires
            old(self)@.wf(),
            old(self)@.search matches Some(s) && (s.phase is SpecCheck || s.phase is Candidate || s.phase is Confirm),
        ensures
            final(self)@.wf(),
            final(self)@ == after_search(
                CallV { search: Some(crate::search::answer_recorded(old(self)@.search.unwrap(), answer)), ..old(self)@ },
            ),
    {
        let mut current: Option<ClosestOverloadSearch> = None;
        std::mem::swap(&mut current, &mut self.search);
        match current {
            Some(mut s) => {
                s.record_answer(answer);
                self.search = Some(s);
            },
            None => {},
        }
        self.after_search();
    }

    /// Records the outcome of a `ContextualCall` step: whether there are hard call errors,
    /// and the result type.
    pub fn record_contextual(&mut self, has_hard_call_errors: bool, res: &Ty)
        requires
            old(self)@.wf(),
            old(self)@.search matches Some(s) && s.phase is Contextual,
        ensures
            final(self)@.wf(),
            final(self)@ == after_search(
                CallV {
                    search: Some(
                        crate::search::contextual_recorded(old(self)@.search.unwrap(), has_hard_call_errors, res@ is Union, res@ is Never),
                    ),
                    ..old(self)@
                },
            ),
    {
        let mut current: Option<ClosestOverloadSearch> = None;
        std::mem::swap(&mut current, &mut self.search);
        match current {
            Some(mut s) => {
                s.record_contextual(has_hard_call_errors, res);
                self.search = Some(s);
            },
            None => {},
        }
        self.after_search();
    }

    /// Records the answer to `CheckRefinement`: whether the union of the expanded results
    /// is a strictly narrower type than the direct result. If so the call ends with it;
    /// otherwise the next argument is expanded.
    pub fn record_refinement(&mut self, narrower: bool)
        requires
            old(self)@.wf(),
            old(self)@.phase is Refining,
        ensures
            final(self)@.wf(),
            final(self)@ == if narrower {
                finish(old(self)@, CallResultV::Refined(old(self)@.direct.unwrap(), old(self)@.picks))
            } else {
                expansion_step(old(self)@)
            },
    {
        let direct = match self.direct {
            Some(d) => d,
            None => {
                return;
            },
        };
        if narrower {
            let picks = copy_outcomes(&self.picks);
            self.finish(CallResult::Refined(direct, picks));
        } else {
            self.expansion_step();
        }
    }
}

/// When expansion yields lists, there is at least one.
proof fn lemma_expand_outcome_nonempty(e: ExpanderV)
    requires
        e.wf(),
    ensures
        expand_outcome(e).1 matches Some(ls) ==> ls.len() >= 1,
    decreases e.measure(),
{
    if !e.exhausted() {
        let next = ExpanderV { idx: crate::expander::next_idx(e.idx, e.npos()), lists: e.lists, gas: e.gas };
        let tys = crate::expand::expansion(crate::expander::type_at(e.lists[0], e.idx));
        if tys.len() == 0 {
            if next.measure() < e.measure() {
                assert(next.wf()) by {
                    assert(next.npos() == e.npos());
                    assert(next.nkw() == e.nkw());
                }
                lemma_expand_outcome_nonempty(next);
            }
        } else {
            crate::expander::lemma_expanded_lists_len(e.lists, e.idx, tys);
            assert(e.lists.len() * tys.len() >= 1) by (nonlinear_arith)
                requires
                    e.lists.len() >= 1,
                    tys.len() >= 1,
            ;
        }
    }
}

fn copy_outcomes(v: &Vec<ClosestOutcome>) -> (r: Vec<ClosestOutcome>)
    ensures
        r@ == v@,
{
    let mut r: Vec<ClosestOutcome> = Vec::new();
    let mut i: usize = 0;
    while i < v.len()
        invariant
            i <= v@.len(),
            r@ == v@.take(i as int),
        decreases v.len() - i,
    {
        r.push(v[i]);
        i = i + 1;
        proof {
            assert(r@ =~= v@.take(i as int));
        }
    }
    proof {
        assert(r@ =~= v@);
    }
    r
}

/// What each signature offers for unpacked arguments.
fn params_of(sigs: &Vec<OverloadSignature>) -> (r: Vec<OverloadParams>)
    ensures
        r@ == sigs@.map_values(|s: OverloadSignature| s.params),
{
    let mut r: Vec<OverloadParams> = Vec::new();
    let mut i: usize = 0;
    while i < sigs.len()
        invariant
            i <= sigs@.len(),
            r@ == sigs@.take(i as int).map_values(|s: OverloadSignature| s.params),
        decreases sigs.len() - i,
    {
        r.push(sigs[i].params);
        i = i + 1;
        proof {
            assert(r@ =~= sigs@.take(i as int).map_values(|s: OverloadSignature| s.params));
        }
    }
    proof {
        assert(sigs@.take(i as int) =~= sigs@);
    }
    r
}

fn copy_params(v: &Vec<OverloadParams>) -> (r: Vec<OverloadParams>)
    ensures
        r@ == v@,
{
    let mut r: Vec<OverloadParams> = Vec::new();
    let mut i: usize = 0;
    while i < v.len()
        invariant
            i <= v@.len(),
            r@ == v@.take(i as int),
        decreases v.len() - i,
    {
        r.push(v[i]);
        i = i + 1;
        proof {
            assert(r@ =~= v@.take(i as int));
        }
    }
    proof {
        assert(r@ =~= v@);
    }
    r
}

/// The overloads kept for the search are exactly those whose arity fits the call, in order.
pub proof fn lemma_compatible_overloads_fit(c: CallV)
    requires
        c.base_wf(),
    ensures
        forall|i: int|
            0 <= i < c.signatures.len() ==> (c.compatible.contains(i as usize) <==> arity_fits(
                c.signatures[i].arg_counts,
                c.has_self,
                c.args,
                c.keywords,
            )),
        forall|i: int, j: int| 0 <= i < j < c.compatible.len() ==> #[trigger] c.compatible[i] < #[trigger] c.compatible[j],
{
    let mm = arity_mismatches(c.signatures, c.has_self, c.args, c.keywords);
    crate::search::lemma_zero_error_indices(mm);
    assert forall|i: int| 0 <= i < c.signatures.len() implies (c.compatible.contains(i as usize) <==> arity_fits(
        c.signatures[i].arg_counts,
        c.has_self,
        c.args,
        c.keywords,
    )) by {
        lemma_arity_mismatch_zero(c.signatures[i].arg_counts, c.has_self, c.args, c.keywords);
        assert(mm[i] == arity_mismatch(c.signatures[i].arg_counts, c.has_self, c.args, c.keywords) as usize);
        if c.compatible.contains(i as usize) {
            let k = choose|k: int| 0 <= k < c.compatible.len() && c.compatible[k] == i as usize;
            assert(mm[c.compatible[k] as int] == 0);
        }
    }
}

/// How an overloaded call ends. The overload that stands for it is one of the call's
/// overloads, and its result is the error `Any` exactly when it does not match. With no overload of fitting arity, it fails with the first
/// overload of smallest arity mismatch. Otherwise it matches when the search with its own
/// arguments matches, when every argument list of an expansion matches (the first list's
/// overload standing for the call), or when only one overload has a fitting arity. An
/// expansion narrows a matched result only with `legacy_expansion`, for a union result,
/// and when some expanded list's result is `Never`.
pub proof fn lemma_call_outcome(c: CallV)
    requires
        c.wf(),
        c.phase is Done,
    ensures
        ({
            let out = c.outcome.unwrap();
            let mm = arity_mismatches(c.signatures, c.has_self, c.args, c.keywords);
            &&& out.overload < c.signatures.len()
            &&& (call_value(out) is ErrorAny) == !out.matched
            &&& (out.result is ArityMismatch) == (c.compatible.len() == 0)
            &&& out.result is ArityMismatch ==> !out.matched && out.overload == c.arity_closest
                && is_first_fewest(mm, out.overload as int)
            &&& c.compatible.len() == 1 ==> out.matched
            &&& out.result matches CallResultV::Direct(o) ==> out.overload == o.candidate && out.matched == (o.matched || c.compatible.len() == 1)
            &&& out.result matches CallResultV::Expanded(ps) ==> out.matched && out.overload == ps[0].candidate
                && forall|i: int| 0 <= i < ps.len() ==> (#[trigger] ps[i]).matched
            &&& out.result matches CallResultV::Refined(o, ps) ==> out.matched && out.overload == o.candidate
                && c.legacy_expansion && o.matched && o.res_is_union
                && exists|i: int| 0 <= i < ps.len() && (#[trigger] ps[i]).res_is_never
        }),
{
}

/// `c` has ended with the result of the search with its own arguments while it had not
/// matched, or while its matched union result could still be narrowed.
pub open spec fn ends_with_direct_result(c: CallV) -> bool {
    &&& c.phase is Done
    &&& c.outcome matches Some(out) && out.result is Direct
    &&& (!c.matched || c.refine)
}

/// Expansion ends a call with its direct result (unmatched, or a union not narrowed) only
/// once it has nothing more to give: every argument has been tried, or the budget is spent.
pub proof fn lemma_expansion_step_ends_only_when_exhausted(c: CallV)
    requires
        c.expander.wf(),
    ensures
        ends_with_direct_result(expansion_step(c)) ==> expansion_step(c).expander.exhausted(),
        expand_outcome(c.expander).1 is Some && (!c.matched || c.refine) ==> expansion_step(c).phase
            == (CallPhase::Expanding { k: 0 }),
{
    crate::expander::lemma_expansion_ends(c.expander);
}

/// A finished search never ends a call with its direct result while expansion could still
/// yield argument lists. An expanded list that does not match, or an expansion whose lists
/// all match without hitting a `Never` overload while a matched union is being narrowed,
/// moves on to the next argument; the call ends unmatched, or with the union not narrowed,
/// only once every argument has been tried or the budget is spent.
pub proof fn lemma_search_ends_call_only_when_exhausted(c: CallV)
    requires
        c.wf(),
        c.search matches Some(s) && s.phase is Done,
    ensures
        ends_with_direct_result(after_search(c)) ==> after_search(c).expander.exhausted(),
{
    let s = c.search.unwrap();
    if let SearchPhase::Done(so) = s.phase {
        let o = to_overload(c.compatible, so);
        match c.phase {
            CallPhase::Searching => {
                lemma_expansion_step_ends_only_when_exhausted(
                    CallV {
                        direct: Some(o),
                        matched: o.matched,
                        refine: o.matched && c.legacy_expansion && o.res_is_union,
                        search: None,
                        ..c
                    },
                );
            },
            CallPhase::Expanding { k } => {
                if !o.matched {
                    lemma_expansion_step_ends_only_when_exhausted(CallV { search: None, ..c });
                } else {
                    let picks = c.picks.push(o);
                    lemma_expansion_step_ends_only_when_exhausted(CallV { picks, search: None, ..c });
                }
            },
            _ => {},
        }
    }
}

/// A call that has ended with its direct result while unmatched, or with a matched union
/// result that could have been narrowed, has tried every argument for expansion or spent
/// the budget.
pub proof fn lemma_direct_result_only_after_expansion(c: CallV)
    requires
        c.wf(),
    ensures
        ends_with_direct_result(c) ==> c.expander.exhausted(),
{
}

} // verus!
