use vstd::prelude::*;
use crate::types::{Ty, TyV};

verus! {

/// A span of source text, as byte offsets.
#[derive(Debug, Clone, Copy, PartialEq, Eq, Structural)]
pub struct TextRange {
    pub start: u32,
    pub end: u32,
}

/// An argument value whose type is known, with the range of source it stands for.
#[derive(Debug)]
pub struct TypedValue {
    pub ty: Ty,
    pub range: TextRange,
}

/// A positional argument of a call: plain (`f(x)`) or unpacked (`f(*xs)`).
#[derive(Debug)]
pub enum CallArg {
    Arg(TypedValue),
    /// The unpacked value and the range of the whole `*xs`.
    Star(TypedValue, TextRange),
}

/// A keyword argument of a call: named (`f(k=x)`, `arg` is `Some`) or unpacked (`f(**kw)`).
#[derive(Debug)]
pub struct CallKeyword {
    pub range: TextRange,
    pub arg: Option<String>,
    pub value: TypedValue,
}

/// The mathematical value of a [`CallArg`]: whether it is unpacked, the type of its
/// value, the range of its value, and the range of the argument.
pub struct CallArgV {
    pub star: bool,
    pub ty: TyV,
    pub value_range: TextRange,
    pub range: TextRange,
}

/// The mathematical value of a [`CallKeyword`].
pub struct CallKeywordV {
    pub range: TextRange,
    pub arg: Option<Seq<char>>,
    pub ty: TyV,
    pub value_range: TextRange,
}

impl View for CallArg {
    type V = CallArgV;

    open spec fn view(&self) -> CallArgV {
        match self {
            CallArg::Arg(v) => CallArgV { star: false, ty: v.ty@, value_range: v.range, range: v.range },
            CallArg::Star(v, r) => CallArgV { star: true, ty: v.ty@, value_range: v.range, range: *r },
        }
    }
}

impl View for CallKeyword {
    type V = CallKeywordV;

    open spec fn view(&self) -> CallKeywordV {
        CallKeywordV {
            range: self.range,
            arg: match self.arg {
                Some(a) => Some(a@),
                None => None,
            },
            ty: self.value.ty@,
            value_range: self.value.range,
        }
    }
}

pub open spec fn args_view(s: Seq<CallArg>) -> Seq<CallArgV> {
    s.map_values(|a: CallArg| a@)
}

pub open spec fn keywords_view(s: Seq<CallKeyword>) -> Seq<CallKeywordV> {
    s.map_values(|k: CallKeyword| k@)
}

impl TypedValue {
    /// A copy with the same type and range.
    pub fn deep_copy(&self) -> (r: TypedValue)
        ensures
            r.ty@ == self.ty@,
            r.range == self.range,
    {
        TypedValue { ty: self.ty.deep_copy(), range: self.range }
    }
}

impl CallArg {
    /// The range of the argument: that of its value for a plain argument, that of
    /// the whole `*xs` for an unpacked one.
    pub fn range(&self) -> (r: TextRange)
        ensures
            r == self@.range,
    {
        match self {
            CallArg::Arg(v) => v.range,
            CallArg::Star(_, r) => *r,
        }
    }

    /// The value of the argument.
    pub fn value(&self) -> (v: &TypedValue)
        ensures
            v.ty@ == self@.ty,
            v.range == self@.value_range,
    {
        match self {
            CallArg::Arg(v) => v,
            CallArg::Star(v, _) => v,
        }
    }

    /// A copy with the same value.
    pub fn deep_copy(&self) -> (r: CallArg)
        ensures
            r@ == self@,
    {
        match self {
            CallArg::Arg(v) => CallArg::Arg(v.deep_copy()),
            CallArg::Star(v, r) => CallArg::Star(v.deep_copy(), *r),
        }
    }
}

impl CallKeyword {
    /// A copy with the same value.
    pub fn deep_copy(&self) -> (r: CallKeyword)
        ensures
            r@ == self@,
    {
        let arg = match &self.arg {
            Some(a) => Some(a.clone()),
            None => None,
        };
        CallKeyword { range: self.range, arg, value: self.value.deep_copy() }
    }
}

/// A copy of a list of positional arguments.
pub fn copy_args(v: &Vec<CallArg>) -> (r: Vec<CallArg>)
    ensures
        args_view(r@) == args_view(v@),
{
    let mut r: Vec<CallArg> = Vec::new();
    let mut i: usize = 0;
    while i < v.len()
        invariant
            i <= v.len(),
            r@.len() == i,
            forall|j: int| 0 <= j < i ==> (#[trigger] r@[j])@ == v@[j]@,
        decreases v.len() - i,
    {
        r.push(v[i].deep_copy());
        i = i + 1;
    }
    assert(args_view(r@) =~= args_view(v@));
    r
}

/// A copy of a list of keyword arguments.
pub fn copy_keywords(v: &Vec<CallKeyword>) -> (r: Vec<CallKeyword>)
    ensures
        keywords_view(r@) == keywords_view(v@),
{
    let mut r: Vec<CallKeyword> = Vec::new();
    let mut i: usize = 0;
    while i < v.len()
        invariant
            i <= v.len(),
            r@.len() == i,
            forall|j: int| 0 <= j < i ==> (#[trigger] r@[j])@ == v@[j]@,
        decreases v.len() - i,
    {
        r.push(v[i].deep_copy());
        i = i + 1;
    }
    assert(keywords_view(r@) =~= keywords_view(v@));
    r
}

} // verus!
