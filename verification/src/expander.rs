use vstd::prelude::*;
use crate::args::{
    CallArg, CallArgV, CallKeyword, CallKeywordV, TextRange, TypedValue, args_view, keywords_view, copy_args,
    copy_keywords,
};
use crate::expand::{EXPANSION_LIMIT, expansion, expand_type};
use crate::gas::Gas;
use crate::types::{Ty, TyV, tys_view, lemma_tys_view};

verus! {

/// The position of an argument in a call: the `i`th positional or the `i`th keyword argument.
#[derive(Debug, Clone, Copy, PartialEq, Eq, Structural)]
pub enum ArgIdx {
    Positional(usize),
    Keyword(usize),
}

/// A list of positional arguments and a list of keyword arguments.
pub type ArgList = (Vec<CallArg>, Vec<CallKeyword>);

pub type ArgListV = (Seq<CallArgV>, Seq<CallKeywordV>);

pub open spec fn arg_list_view(l: ArgList) -> ArgListV {
    (args_view(l.0@), keywords_view(l.1@))
}

pub open spec fn arg_lists_view(s: Seq<ArgList>) -> Seq<ArgListV> {
    s.map_values(|l: ArgList| arg_list_view(l))
}

/// Performs argument type expansion for the arguments of a call to an overloaded function:
/// each call of [`ArgsExpander::expand`] splits the type of one more argument, yielding
/// every argument list that results.
pub struct ArgsExpander {
    /// The next argument to expand.
    idx: ArgIdx,
    /// The current argument lists.
    arg_lists: Vec<ArgList>,
    /// Bounds how many argument lists expansion produces.
    gas: Gas,
}

/// The mathematical state of an [`ArgsExpander`].
pub struct ExpanderV {
    pub idx: ArgIdx,
    pub lists: Seq<ArgListV>,
    pub gas: int,
}

impl View for ArgsExpander {
    type V = ExpanderV;

    closed spec fn view(&self) -> ExpanderV {
        ExpanderV { idx: self.idx, lists: arg_lists_view(self.arg_lists@), gas: self.gas.left() }
    }
}

impl ExpanderV {
    pub open spec fn npos(self) -> nat {
        self.lists[0].0.len()
    }

    pub open spec fn nkw(self) -> nat {
        self.lists[0].1.len()
    }

    /// Every argument has been tried: no further expansion comes.
    pub open spec fn exhausted(self) -> bool {
        match self.idx {
            ArgIdx::Keyword(i) => i >= self.nkw(),
            ArgIdx::Positional(_) => false,
        }
    }

    pub open spec fn wf(self) -> bool {
        &&& self.lists.len() >= 1
        &&& self.npos() <= usize::MAX
        &&& self.nkw() <= usize::MAX
        &&& forall|k: int|
            0 <= k < self.lists.len() ==> (#[trigger] self.lists[k]).0.len() == self.npos()
                && self.lists[k].1.len() == self.nkw()
        &&& match self.idx {
            ArgIdx::Positional(i) => i < self.npos(),
            ArgIdx::Keyword(i) => i <= self.nkw(),
        }
        &&& forall|k: int| 0 <= k < self.lists.len() ==> arg_shape(#[trigger] self.lists[k]) == arg_shape(self.lists[0])
        &&& !self.exhausted() ==> self.gas >= 1
        &&& 0 <= self.gas <= EXPANSION_LIMIT
    }

    /// Strictly decreases from one argument position to the next.
    pub open spec fn measure(self) -> int {
        match self.idx {
            ArgIdx::Positional(i) => self.nkw() + 2 + if i < self.npos() {
                self.npos() - i
            } else {
                0
            },
            ArgIdx::Keyword(i) => self.nkw() + 1 - i,
        }
    }
}

/// What expansion never changes in an argument list: which positional arguments are
/// unpacked and the range of each, and the name (or absence of one) and range of each
/// keyword argument.
pub open spec fn arg_shape(l: ArgListV) -> (Seq<(bool, TextRange)>, Seq<(Option<Seq<char>>, TextRange)>) {
    (l.0.map_values(|a: CallArgV| (a.star, a.range)), l.1.map_values(|k: CallKeywordV| (k.arg, k.range)))
}

/// The position tried after `idx`.
pub open spec fn next_idx(idx: ArgIdx, npos: nat) -> ArgIdx {
    match idx {
        ArgIdx::Positional(i) => if i + 1 < npos {
            ArgIdx::Positional((i + 1) as usize)
        } else {
            ArgIdx::Keyword(0)
        },
        ArgIdx::Keyword(i) => ArgIdx::Keyword((i + 1) as usize),
    }
}

/// The type, in `list`, of the argument at `idx`.
pub open spec fn type_at(list: ArgListV, idx: ArgIdx) -> TyV {
    match idx {
        ArgIdx::Positional(i) => list.0[i as int].ty,
        ArgIdx::Keyword(i) => list.1[i as int].ty,
    }
}

/// A positional argument whose value now has type `t`, with the argument's range.
pub open spec fn with_arg_type(a: CallArgV, t: TyV) -> CallArgV {
    CallArgV { star: a.star, ty: t, value_range: a.range, range: a.range }
}

/// A keyword argument whose value now has type `t`, with the keyword's range.
pub open spec fn with_keyword_type(k: CallKeywordV, t: TyV) -> CallKeywordV {
    CallKeywordV { range: k.range, arg: k.arg, ty: t, value_range: k.range }
}

/// `list` with the argument at `idx` given type `t`.
pub open spec fn with_type_at(list: ArgListV, idx: ArgIdx, t: TyV) -> ArgListV {
    match idx {
        ArgIdx::Positional(i) => (list.0.update(i as int, with_arg_type(list.0[i as int], t)), list.1),
        ArgIdx::Keyword(i) => (list.0, list.1.update(i as int, with_keyword_type(list.1[i as int], t))),
    }
}

/// For each list in order, and each type of `tys` in order, the list with the argument at
/// `idx` given that type.
pub open spec fn expanded_lists(lists: Seq<ArgListV>, idx: ArgIdx, tys: Seq<TyV>) -> Seq<ArgListV>
    decreases lists.len(),
{
    if lists.len() == 0 {
        Seq::empty()
    } else {
        expanded_lists(lists.drop_last(), idx, tys) + tys.map_values(
            |t: TyV| with_type_at(lists.last(), idx, t),
        )
    }
}

/// What [`ArgsExpander::expand`] does: the state after the call and what it returns.
///
/// Starting at the current position, arguments whose type does not expand are passed over.
/// At the first one that expands, every current list is replaced, in order, by one list per
/// type of the expansion. If the lists would number at least the gas left, expansion stops
/// for good and nothing is returned; otherwise the new lists are returned and the gas is
/// reduced by their number. Once every argument is tried, nothing is returned.
pub open spec fn expand_outcome(s: ExpanderV) -> (ExpanderV, Option<Seq<ArgListV>>)
    decreases s.measure(),
{
    if s.exhausted() {
        (s, None)
    } else {
        let next = ExpanderV { idx: next_idx(s.idx, s.npos()), lists: s.lists, gas: s.gas };
        let tys = expansion(type_at(s.lists[0], s.idx));
        if tys.len() == 0 {
            if next.measure() < s.measure() {
                expand_outcome(next)
            } else {
                (next, None)
            }
        } else if s.lists.len() * tys.len() >= s.gas {
            (ExpanderV { idx: ArgIdx::Keyword(s.nkw() as usize), lists: s.lists, gas: 0 }, None)
        } else {
            let lists = expanded_lists(s.lists, s.idx, tys);
            (ExpanderV { idx: next.idx, lists, gas: s.gas - s.lists.len() * tys.len() }, Some(lists))
        }
    }
}

pub proof fn lemma_expanded_lists_len(lists: Seq<ArgListV>, idx: ArgIdx, tys: Seq<TyV>)
    ensures
        expanded_lists(lists, idx, tys).len() == lists.len() * tys.len(),
    decreases lists.len(),
{
    if lists.len() > 0 {
        lemma_expanded_lists_len(lists.drop_last(), idx, tys);
        let a = lists.len() as int;
        let n = tys.len() as int;
        assert((a - 1) * n + n == a * n) by (nonlinear_arith);
    }
}

/// A copy of a list of argument lists.
fn copy_arg_lists(v: &Vec<ArgList>) -> (r: Vec<ArgList>)
    ensures
        arg_lists_view(r@) == arg_lists_view(v@),
{
    let mut r: Vec<ArgList> = Vec::new();
    let mut i: usize = 0;
    while i < v.len()
        invariant
            i <= v.len(),
            r@.len() == i,
            forall|j: int| 0 <= j < i ==> arg_list_view(#[trigger] r@[j]) == arg_list_view(v@[j]),
        decreases v.len() - i,
    {
        r.push((copy_args(&v[i].0), copy_keywords(&v[i].1)));
        i = i + 1;
    }
    assert(arg_lists_view(r@) =~= arg_lists_view(v@));
    r
}

/// `list` with the argument at `idx` given type `t`.
fn list_with_type_at(list: &ArgList, idx: ArgIdx, t: &Ty) -> (r: ArgList)
    requires
        match idx {
            ArgIdx::Positional(i) => i < list.0@.len(),
            ArgIdx::Keyword(i) => i < list.1@.len(),
        },
    ensures
        arg_list_view(r) == with_type_at(arg_list_view(*list), idx, t@),
{
    let mut posargs = copy_args(&list.0);
    let mut keywords = copy_keywords(&list.1);
    assert(posargs@.len() == args_view(posargs@).len());
    assert(keywords@.len() == keywords_view(keywords@).len());
    match idx {
        ArgIdx::Positional(i) => {
            let range = list.0[i].range();
            let value = TypedValue { ty: t.deep_copy(), range };
            let arg = match &list.0[i] {
                CallArg::Arg(_) => CallArg::Arg(value),
                CallArg::Star(_, r) => CallArg::Star(value, *r),
            };
            posargs.set(i, arg);
            proof {
                assert(args_view(posargs@) =~= args_view(list.0@).update(
                    i as int,
                    with_arg_type(list.0@[i as int]@, t@),
                ));
            }
        },
        ArgIdx::Keyword(i) => {
            let kw = &list.1[i];
            let arg = match &kw.arg {
                Some(a) => Some(a.clone()),
                None => None,
            };
            let new_kw = CallKeyword {
                range: kw.range,
                arg,
                value: TypedValue { ty: t.deep_copy(), range: kw.range },
            };
            keywords.set(i, new_kw);
            proof {
                assert(keywords_view(keywords@) =~= keywords_view(list.1@).update(
                    i as int,
                    with_keyword_type(list.1@[i as int]@, t@),
                ));
            }
        },
    }
    (posargs, keywords)
}

impl ArgsExpander {
    /// The budget of argument lists.
    pub const GAS: usize = EXPANSION_LIMIT;

    /// An expander for a call with these arguments; it starts with the first positional
    /// argument, or with the first keyword argument if there is no positional one.
    pub fn new(posargs: Vec<CallArg>, keywords: Vec<CallKeyword>) -> (r: ArgsExpander)
        ensures
            r@.wf(),
            r@.idx == (if posargs@.len() == 0 {
                ArgIdx::Keyword(0)
            } else {
                ArgIdx::Positional(0)
            }),
            r@.lists == seq![(args_view(posargs@), keywords_view(keywords@))],
            r@.gas == EXPANSION_LIMIT,
    {
        let npos = posargs.len();
        let nkw = keywords.len();
        let idx = if npos == 0 {
            ArgIdx::Keyword(0)
        } else {
            ArgIdx::Positional(0)
        };
        let mut arg_lists: Vec<ArgList> = Vec::new();
        arg_lists.push((posargs, keywords));
        let r = ArgsExpander { idx, arg_lists, gas: Gas::new(Self::GAS as isize) };
        proof {
            assert(r@.lists =~= seq![(args_view(posargs@), keywords_view(keywords@))]);
            assert(r@.gas == EXPANSION_LIMIT);
            assert(r@.npos() == npos);
            assert(r@.nkw() == nkw);
        }
        r
    }

    /// Expands the next argument whose type expands, and returns the expanded argument lists
    /// (see [`expand_outcome`]).
    pub fn expand(&mut self) -> (r: Option<Vec<ArgList>>)
        requires
            old(self)@.wf(),
        ensures
            final(self)@.wf(),
            (final(self)@, match r {
                Some(ls) => Some(arg_lists_view(ls@)),
                None => None,
            }) == expand_outcome(old(self)@),
        decreases old(self)@.measure(),
    {
        let ghost s = self@;
        let idx = self.idx;
        if self.arg_lists.len() == 0 {
            return None;
        }
        let ghost first = arg_list_view(self.arg_lists@[0]);
        assert(s.lists[0] == first);
        let npos = self.arg_lists[0].0.len();
        let nkw = self.arg_lists[0].1.len();
        let value_ty = match idx {
            ArgIdx::Positional(i) => {
                self.idx = if i < npos - 1 {
                    ArgIdx::Positional(i + 1)
                } else {
                    ArgIdx::Keyword(0)
                };
                self.arg_lists[0].0[i].value().ty.deep_copy()
            },
            ArgIdx::Keyword(i) => {
                if i < nkw {
                    self.idx = ArgIdx::Keyword(i + 1);
                    self.arg_lists[0].1[i].value.ty.deep_copy()
                } else {
                    return None;
                }
            },
        };
        let expanded_types = expand_type(&value_ty);
        proof {
            lemma_tys_view(expanded_types@);
            assert(value_ty@ == type_at(s.lists[0], s.idx));
        }
        if expanded_types.len() == 0 {
            // Nothing to expand here: try the next argument.
            proof {
                assert(self@.measure() < s.measure());
            }
            return self.expand();
        }
        let ghost tys = tys_view(expanded_types@);
        let ghost g = s.gas;
        let mut new_arg_lists: Vec<ArgList> = Vec::new();
        let mut k: usize = 0;
        while k < self.arg_lists.len()
            invariant
                0 <= k <= self.arg_lists@.len(),
                arg_lists_view(self.arg_lists@) == s.lists,
                s.wf(),
                !s.exhausted(),
                idx == s.idx,
                self.idx == next_idx(s.idx, s.npos()),
                npos == s.npos(),
                nkw == s.nkw(),
                tys == tys_view(expanded_types@),
                tys.len() == expanded_types@.len(),
                tys.len() >= 1,
                tys == expansion(type_at(s.lists[0], s.idx)),
                g == s.gas,
                s == old(self)@,
                forall|j: int| 0 <= j < tys.len() ==> #[trigger] tys[j] == expanded_types@[j]@,
                arg_lists_view(new_arg_lists@) == expanded_lists(s.lists.take(k as int), s.idx, tys),
                self.gas.left() == g - new_arg_lists@.len(),
                new_arg_lists@.len() < g,
                new_arg_lists@.len() == k * tys.len(),
            decreases self.arg_lists@.len() - k,
        {
            let mut j: usize = 0;
            let ghost before = arg_lists_view(new_arg_lists@);
            proof {
                assert(s.lists.take(k + 1).drop_last() =~= s.lists.take(k as int));
                assert(s.lists.take(k + 1).last() == s.lists[k as int]);
                assert(arg_list_view(self.arg_lists@[k as int]) == s.lists[k as int]);
            }
            while j < expanded_types.len()
                invariant
                    0 <= k < self.arg_lists@.len(),
                    0 <= j <= expanded_types@.len(),
                    arg_lists_view(self.arg_lists@) == s.lists,
                    s.wf(),
                    !s.exhausted(),
                    idx == s.idx,
                    self.idx == next_idx(s.idx, s.npos()),
                    npos == s.npos(),
                    nkw == s.nkw(),
                    tys == tys_view(expanded_types@),
                    tys.len() == expanded_types@.len(),
                    tys == expansion(type_at(s.lists[0], s.idx)),
                    g == s.gas,
                    s == old(self)@,
                    forall|i: int| 0 <= i < tys.len() ==> #[trigger] tys[i] == expanded_types@[i]@,
                    before == expanded_lists(s.lists.take(k as int), s.idx, tys),
                    arg_list_view(self.arg_lists@[k as int]) == s.lists[k as int],
                    arg_lists_view(new_arg_lists@) == before + tys.take(j as int).map_values(
                        |t: TyV| with_type_at(s.lists[k as int], s.idx, t),
                    ),
                    self.gas.left() == g - new_arg_lists@.len(),
                    new_arg_lists@.len() < g,
                    new_arg_lists@.len() == k * tys.len() + j,
                decreases expanded_types@.len() - j,
            {
                proof {
                    assert(s.lists[k as int].0.len() == s.npos());
                    assert(s.lists[k as int].1.len() == s.nkw());
                    assert(arg_list_view(self.arg_lists@[k as int]).0.len() == self.arg_lists@[k as int].0@.len());
                    assert(arg_list_view(self.arg_lists@[k as int]).1.len() == self.arg_lists@[k as int].1@.len());
                }
                let new_list = list_with_type_at(&self.arg_lists[k], idx, &expanded_types[j]);
                let ghost prev_view = arg_lists_view(new_arg_lists@);
                let ghost item = arg_list_view(new_list);
                new_arg_lists.push(new_list);
                proof {
                    assert(item == with_type_at(s.lists[k as int], s.idx, tys[j as int]));
                    assert(arg_lists_view(new_arg_lists@) =~= prev_view.push(item));
                    assert(tys.take(j + 1).map_values(|t: TyV| with_type_at(s.lists[k as int], s.idx, t))
                        =~= tys.take(j as int).map_values(|t: TyV| with_type_at(s.lists[k as int], s.idx, t)).push(item));
                    assert(arg_lists_view(new_arg_lists@) =~= before + tys.take(j + 1).map_values(
                        |t: TyV| with_type_at(s.lists[k as int], s.idx, t),
                    ));
                }
                if self.gas.stop() {
                    // The limit is reached: stop expanding, and move past the last keyword
                    // argument so that later calls know that expansion is over.
                    self.idx = ArgIdx::Keyword(nkw);
                    proof {
                        let total = s.lists.len() * tys.len();
                        let c = new_arg_lists@.len() as int;
                        let kk = k as int;
                        let n = tys.len() as int;
                        let a = s.lists.len() as int;
                        assert(c <= total) by (nonlinear_arith)
                            requires
                                c == kk * n + j + 1,
                                0 <= kk < a,
                                0 <= j < n,
                                total == a * n,
                        ;
                        assert(c == g);
                        assert(total >= s.gas);
                        assert(self.gas.left() == 0);
                        assert(self@.lists == s.lists);
                        assert(self@.idx == ArgIdx::Keyword(s.nkw() as usize));
                        assert(tys == expansion(type_at(s.lists[0], s.idx)));
                        assert(expand_outcome(s) == (self@, None::<Seq<ArgListV>>));
                        assert(s == old(self)@);
                    }
                    return None;
                }
                j = j + 1;
            }
            proof {
                assert(tys.take(j as int) =~= tys);
                assert(arg_lists_view(new_arg_lists@) =~= expanded_lists(s.lists.take(k + 1), s.idx, tys));
                assert((k + 1) * tys.len() == k * tys.len() + tys.len()) by (nonlinear_arith);
            }
            k = k + 1;
        }
        proof {
            assert(s.lists.take(k as int) =~= s.lists);
            lemma_expanded_lists_len(s.lists, s.idx, tys);
        }
        self.arg_lists = copy_arg_lists(&new_arg_lists);
        proof {
            assert(self@.lists == expanded_lists(s.lists, s.idx, tys));
            let l = expanded_lists(s.lists, s.idx, tys);
            assert forall|k: int| 0 <= k < s.lists.len() implies idx_in(#[trigger] s.lists[k], s.idx) by {
                assert(s.lists[k].0.len() == s.npos());
            }
            assert forall|m: int| 0 <= m < l.len() implies (#[trigger] l[m]).0.len() == s.npos() && l[m].1.len()
                == s.nkw() && arg_shape(l[m]) == arg_shape(s.lists[0]) by {
                lemma_expanded_lists_shape(s.lists, s.idx, tys, m);
            }
        }
        Some(new_arg_lists)
    }
}

/// `idx` names an argument of `list`.
pub open spec fn idx_in(list: ArgListV, idx: ArgIdx) -> bool {
    match idx {
        ArgIdx::Positional(i) => i < list.0.len(),
        ArgIdx::Keyword(i) => i < list.1.len(),
    }
}

proof fn lemma_expanded_lists_shape(lists: Seq<ArgListV>, idx: ArgIdx, tys: Seq<TyV>, m: int)
    requires
        0 <= m < expanded_lists(lists, idx, tys).len(),
        forall|k: int| 0 <= k < lists.len() ==> idx_in(#[trigger] lists[k], idx),
    ensures
        exists|k: int|
            0 <= k < lists.len() && (#[trigger] expanded_lists(lists, idx, tys)[m]).0.len() == lists[k].0.len()
                && expanded_lists(lists, idx, tys)[m].1.len() == lists[k].1.len()
                && arg_shape(expanded_lists(lists, idx, tys)[m]) == arg_shape(lists[k]),
    decreases lists.len(),
{
    lemma_expanded_lists_len(lists, idx, tys);
    if lists.len() > 0 {
        let init = lists.drop_last();
        lemma_expanded_lists_len(init, idx, tys);
        let n0 = expanded_lists(init, idx, tys).len();
        if m < n0 {
            lemma_expanded_lists_shape(init, idx, tys, m);
            let k = choose|k: int|
                0 <= k < init.len() && (#[trigger] expanded_lists(init, idx, tys)[m]).0.len() == init[k].0.len()
                    && expanded_lists(init, idx, tys)[m].1.len() == init[k].1.len()
                    && arg_shape(expanded_lists(init, idx, tys)[m]) == arg_shape(init[k]);
            assert(lists[k] == init[k]);
        } else {
            let last = lists.last();
            assert(idx_in(lists[lists.len() - 1], idx));
            let t = tys[m - n0];
            assert(expanded_lists(lists, idx, tys)[m] == with_type_at(last, idx, t));
            assert(lists[lists.len() - 1] == last);
            assert(with_type_at(last, idx, t).0.len() == last.0.len());
            assert(with_type_at(last, idx, t).1.len() == last.1.len());
            assert(arg_shape(with_type_at(last, idx, t)) =~= arg_shape(last));
        }
    }
}

/// Expansion keeps the shape of the call: every argument list it yields unpacks the same
/// positional arguments, names the same keywords, and gives each argument the same range
/// as the lists it started from, and so does the state it leaves.
pub proof fn lemma_expansion_keeps_shape(s: ExpanderV)
    requires
        s.wf(),
    ensures
        expand_outcome(s).1 matches Some(ls) ==> forall|k: int| 0 <= k < ls.len() ==> arg_shape(#[trigger] ls[k]) == arg_shape(s.lists[0]),
        expand_outcome(s).0.lists.len() >= 1,
        arg_shape(expand_outcome(s).0.lists[0]) == arg_shape(s.lists[0]),
    decreases s.measure(),
{
    if !s.exhausted() {
        let next = ExpanderV { idx: next_idx(s.idx, s.npos()), lists: s.lists, gas: s.gas };
        let tys = expansion(type_at(s.lists[0], s.idx));
        if tys.len() == 0 {
            if next.measure() < s.measure() {
                assert(next.wf()) by {
                    assert(next.npos() == s.npos());
                    assert(next.nkw() == s.nkw());
                }
                lemma_expansion_keeps_shape(next);
            }
        } else if s.lists.len() * tys.len() < s.gas {
            let ls = expanded_lists(s.lists, s.idx, tys);
            assert forall|k: int| 0 <= k < s.lists.len() implies idx_in(#[trigger] s.lists[k], s.idx) by {
                assert(s.lists[k].0.len() == s.npos());
            }
            lemma_expanded_lists_len(s.lists, s.idx, tys);
            assert(s.lists.len() * tys.len() >= 1) by (nonlinear_arith)
                requires
                    s.lists.len() >= 1,
                    tys.len() >= 1,
            ;
            assert forall|k: int| 0 <= k < ls.len() implies arg_shape(#[trigger] ls[k]) == arg_shape(s.lists[0]) by {
                lemma_expanded_lists_shape(s.lists, s.idx, tys, k);
            }
        }
    }
}

/// Expansion yields fewer argument lists than the gas it had, so never more than
/// [`EXPANSION_LIMIT`]; the gas drops by the number of lists yielded, and never grows.
pub proof fn lemma_expansion_bounded(s: ExpanderV)
    requires
        s.wf(),
    ensures
        expand_outcome(s).1 matches Some(ls) ==> ls.len() < s.gas <= EXPANSION_LIMIT
            && expand_outcome(s).0.gas == s.gas - ls.len(),
        expand_outcome(s).0.gas <= s.gas,
    decreases s.measure(),
{
    if !s.exhausted() {
        let next = ExpanderV { idx: next_idx(s.idx, s.npos()), lists: s.lists, gas: s.gas };
        let tys = expansion(type_at(s.lists[0], s.idx));
        if tys.len() == 0 {
            if next.measure() < s.measure() {
                assert(next.wf()) by {
                    assert(next.npos() == s.npos());
                    assert(next.nkw() == s.nkw());
                }
                lemma_expansion_bounded(next);
            }
        } else if s.lists.len() * tys.len() < s.gas {
            lemma_expanded_lists_len(s.lists, s.idx, tys);
        }
    }
}

/// Once expansion yields nothing, every argument has been tried, and further expansion
/// changes nothing and yields nothing.
pub proof fn lemma_expansion_ends(s: ExpanderV)
    requires
        s.wf(),
    ensures
        expand_outcome(s).1 is None ==> expand_outcome(s).0.exhausted(),
        s.exhausted() ==> expand_outcome(s) == (s, None::<Seq<ArgListV>>),
    decreases s.measure(),
{
    if !s.exhausted() {
        let next = ExpanderV { idx: next_idx(s.idx, s.npos()), lists: s.lists, gas: s.gas };
        let tys = expansion(type_at(s.lists[0], s.idx));
        if tys.len() == 0 {
            assert(next.measure() < s.measure());
            assert(next.wf()) by {
                assert(next.npos() == s.npos());
                assert(next.nkw() == s.nkw());
            }
            lemma_expansion_ends(next);
        }
    }
}

/// Expansion leaves a well-formed state.
pub proof fn lemma_expansion_wf(s: ExpanderV)
    requires
        s.wf(),
    ensures
        expand_outcome(s).0.wf(),
    decreases s.measure(),
{
    if !s.exhausted() {
        let next = ExpanderV { idx: next_idx(s.idx, s.npos()), lists: s.lists, gas: s.gas };
        let tys = expansion(type_at(s.lists[0], s.idx));
        if tys.len() == 0 {
            assert(next.measure() < s.measure());
            assert(next.wf()) by {
                assert(next.npos() == s.npos());
                assert(next.nkw() == s.nkw());
            }
            lemma_expansion_wf(next);
        } else if s.lists.len() * tys.len() >= s.gas {
            let e = ExpanderV { idx: ArgIdx::Keyword(s.nkw() as usize), lists: s.lists, gas: 0 };
            assert(e.npos() == s.npos() && e.nkw() == s.nkw());
        } else {
            let ls = expanded_lists(s.lists, s.idx, tys);
            let e = ExpanderV { idx: next.idx, lists: ls, gas: s.gas - s.lists.len() * tys.len() };
            assert forall|k: int| 0 <= k < s.lists.len() implies idx_in(#[trigger] s.lists[k], s.idx) by {
                assert(s.lists[k].0.len() == s.npos());
            }
            lemma_expanded_lists_len(s.lists, s.idx, tys);
            assert(s.lists.len() * tys.len() >= 1) by (nonlinear_arith)
                requires
                    s.lists.len() >= 1,
                    tys.len() >= 1,
            ;
            assert forall|k: int| 0 <= k < ls.len() implies (#[trigger] ls[k]).0.len() == s.npos()
                && ls[k].1.len() == s.nkw() && arg_shape(ls[k]) == arg_shape(s.lists[0]) by {
                lemma_expanded_lists_shape(s.lists, s.idx, tys, k);
            }
            assert(e.npos() == s.npos());
            assert(e.nkw() == s.nkw());
            assert forall|k: int| 0 <= k < e.lists.len() implies arg_shape(#[trigger] e.lists[k]) == arg_shape(e.lists[0]) by {
                assert(arg_shape(ls[k]) == arg_shape(s.lists[0]));
                assert(arg_shape(ls[0]) == arg_shape(s.lists[0]));
            }
        }
    }
}

/// The state after `n` calls of [`ArgsExpander::expand`] from `s`, and how many argument
/// lists those calls yielded in all.
pub open spec fn expand_n(s: ExpanderV, n: nat) -> (ExpanderV, int)
    decreases n,
{
    if n == 0 {
        (s, 0)
    } else {
        let (s1, r) = expand_outcome(s);
        let (sn, total) = expand_n(s1, (n - 1) as nat);
        (sn, total + match r {
            Some(ls) => ls.len() as int,
            None => 0,
        })
    }
}

/// However many times expansion is called, the argument lists it yields number no more
/// than the gas it started with, so never more than [`EXPANSION_LIMIT`] in all: the gas
/// left and the lists yielded always add up to at most the gas at the start.
pub proof fn lemma_expansion_budget(s: ExpanderV, n: nat)
    requires
        s.wf(),
    ensures
        expand_n(s, n).1 + expand_n(s, n).0.gas <= s.gas,
        0 <= expand_n(s, n).1 <= EXPANSION_LIMIT,
        expand_n(s, n).0.wf(),
    decreases n,
{
    if n > 0 {
        lemma_expansion_wf(s);
        lemma_expansion_bounded(s);
        lemma_expansion_budget(expand_outcome(s).0, (n - 1) as nat);
    }
}

/// The position of an argument among all of a call's arguments, positional ones first.
pub open spec fn position(idx: ArgIdx, npos: nat) -> int {
    match idx {
        ArgIdx::Positional(i) => i as int,
        ArgIdx::Keyword(i) => npos + i,
    }
}

/// The argument at position `p`, positional ones first.
pub open spec fn idx_at(p: int, npos: nat) -> ArgIdx {
    if p < npos {
        ArgIdx::Positional(p as usize)
    } else {
        ArgIdx::Keyword((p - npos) as usize)
    }
}

/// The types that the argument at position `p` of the first list expands into.
pub open spec fn expansion_at(s: ExpanderV, p: int) -> Seq<TyV> {
    expansion(type_at(s.lists[0], idx_at(p, s.npos())))
}

/// `p` is the first argument, from the current position on, whose type expands.
pub open spec fn first_expanding(s: ExpanderV, p: int) -> bool {
    &&& position(s.idx, s.npos()) <= p < s.npos() + s.nkw()
    &&& expansion_at(s, p).len() > 0
    &&& forall|q: int| position(s.idx, s.npos()) <= q < p ==> #[trigger] expansion_at(s, q).len() == 0
}

/// What one call of [`ArgsExpander::expand`] does, argument by argument. When it yields
/// argument lists, they come from the first argument, from the current position on, whose
/// type expands (the arguments before it are passed over): each current list, in order, is
/// replaced by one list per type of that argument's expansion, in order, with that argument
/// given the type; those lists become the current lists, and the next call starts after
/// that argument. When it yields nothing, either no argument left expands, or the first
/// that does would make as many lists as the gas left or more, and expansion ends for good.
pub proof fn lemma_expansion_step(s: ExpanderV)
    requires
        s.wf(),
    ensures
        expand_outcome(s).1 matches Some(ls) ==> exists|p: int|
            #[trigger] first_expanding(s, p)
                && ls == expanded_lists(s.lists, idx_at(p, s.npos()), expansion_at(s, p))
                && expand_outcome(s).0.lists == ls
                && expand_outcome(s).0.idx == next_idx(idx_at(p, s.npos()), s.npos()),
        expand_outcome(s).1 is None ==> {
            ||| forall|q: int| position(s.idx, s.npos()) <= q < s.npos() + s.nkw() ==> #[trigger] expansion_at(s, q).len() == 0
            ||| exists|p: int| #[trigger] first_expanding(s, p) && s.lists.len() * expansion_at(s, p).len() >= s.gas
                && expand_outcome(s).0.exhausted()
        },
    decreases s.measure(),
{
    let np = s.npos();
    if s.exhausted() {
        assert(position(s.idx, np) == np + s.nkw());
    } else {
        let next = ExpanderV { idx: next_idx(s.idx, np), lists: s.lists, gas: s.gas };
        let p0 = position(s.idx, np);
        assert(idx_at(p0, np) == s.idx);
        assert(expansion_at(s, p0) == expansion(type_at(s.lists[0], s.idx)));
        let tys = expansion(type_at(s.lists[0], s.idx));
        if tys.len() == 0 {
            assert(next.measure() < s.measure());
            assert(next.wf()) by {
                assert(next.npos() == s.npos());
                assert(next.nkw() == s.nkw());
            }
            assert(position(next.idx, np) == p0 + 1);
            assert(next.npos() == np && next.nkw() == s.nkw());
            assert forall|q: int| #[trigger] expansion_at(next, q) == expansion_at(s, q) by {}
            lemma_expansion_step(next);
            if let Some(ls) = expand_outcome(s).1 {
                let p = choose|p: int|
                    #[trigger] first_expanding(next, p)
                        && ls == expanded_lists(next.lists, idx_at(p, next.npos()), expansion_at(next, p))
                        && expand_outcome(next).0.lists == ls
                        && expand_outcome(next).0.idx == next_idx(idx_at(p, next.npos()), next.npos());
                assert forall|q: int| position(s.idx, np) <= q < p implies #[trigger] expansion_at(s, q).len() == 0 by {
                    if q > p0 {
                        assert(expansion_at(next, q).len() == 0);
                    }
                }
                assert(first_expanding(s, p));
            } else {
                if forall|q: int| position(next.idx, np) <= q < np + s.nkw() ==> #[trigger] expansion_at(next, q).len() == 0 {
                    assert forall|q: int| position(s.idx, np) <= q < np + s.nkw() implies #[trigger] expansion_at(s, q).len() == 0 by {
                        if q > p0 {
                            assert(expansion_at(next, q).len() == 0);
                        }
                    }
                } else {
                    let p = choose|p: int| #[trigger] first_expanding(next, p)
                        && next.lists.len() * expansion_at(next, p).len() >= next.gas
                        && expand_outcome(next).0.exhausted();
                    assert forall|q: int| position(s.idx, np) <= q < p implies #[trigger] expansion_at(s, q).len() == 0 by {
                        if q > p0 {
                            assert(expansion_at(next, q).len() == 0);
                        }
                    }
                    assert(first_expanding(s, p));
                }
            }
        } else {
            assert(first_expanding(s, p0));
        }
    }
}

} // verus!
