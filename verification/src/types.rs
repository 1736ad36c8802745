use vstd::prelude::*;

verus! {

/// A literal value, as it appears in a `Literal[...]` type.
#[derive(Debug)]
pub enum Lit {
    Bool(bool),
    Int(i64),
    Str(String),
    /// A member of an enum class: the class name and the member name.
    EnumMember(String, String),
}

/// How a type variable is restricted.
#[derive(Debug)]
pub enum Restriction {
    Unrestricted,
    Bound(Box<Ty>),
    Constraints(Vec<Ty>),
}

/// The types that overload evaluation reads.
///
/// A class type carries the facts about its class that the evaluation needs:
/// its module and name, its type arguments, and, for an enum class, the
/// literal types of its members.
#[derive(Debug)]
pub enum Ty {
    Any,
    Never,
    Literal(Lit),
    ClassType { module: String, name: String, targs: Vec<Ty>, enum_members: Option<Vec<Lit>> },
    Union(Vec<Ty>),
    /// `type[T]`.
    TypeOf(Box<Ty>),
    /// A tuple of known length.
    Tuple(Vec<Ty>),
    /// `tuple[T, ...]`.
    UnboundedTuple(Box<Ty>),
    TypedDict(String),
    Quantified { name: String, restriction: Restriction },
    /// A solver variable, identified by its number.
    Var(u32),
    /// Any other type, by its display.
    Other(String),
}

/// The mathematical value of a [`Lit`].
pub enum LitV {
    Bool(bool),
    Int(int),
    Str(Seq<char>),
    EnumMember(Seq<char>, Seq<char>),
}

/// The mathematical value of a [`Restriction`].
pub enum RestrictionV {
    Unrestricted,
    Bound(Box<TyV>),
    Constraints(Seq<TyV>),
}

/// The mathematical value of a [`Ty`].
pub enum TyV {
    Any,
    Never,
    Literal(LitV),
    ClassType { module: Seq<char>, name: Seq<char>, targs: Seq<TyV>, enum_members: Option<Seq<LitV>> },
    Union(Seq<TyV>),
    TypeOf(Box<TyV>),
    Tuple(Seq<TyV>),
    UnboundedTuple(Box<TyV>),
    TypedDict(Seq<char>),
    Quantified { name: Seq<char>, restriction: RestrictionV },
    Var(nat),
    Other(Seq<char>),
}

pub open spec fn lit_view(l: Lit) -> LitV {
    match l {
        Lit::Bool(b) => LitV::Bool(b),
        Lit::Int(i) => LitV::Int(i as int),
        Lit::Str(s) => LitV::Str(s@),
        Lit::EnumMember(c, m) => LitV::EnumMember(c@, m@),
    }
}

pub open spec fn lits_view(s: Seq<Lit>) -> Seq<LitV> {
    s.map_values(|l: Lit| lit_view(l))
}

pub open spec fn ty_view(t: Ty) -> TyV
    decreases t, 0nat,
{
    match t {
        Ty::Any => TyV::Any,
        Ty::Never => TyV::Never,
        Ty::Literal(l) => TyV::Literal(lit_view(l)),
        Ty::ClassType { module, name, targs, enum_members } => TyV::ClassType {
            module: module@,
            name: name@,
            targs: tys_view(targs@),
            enum_members: match enum_members {
                Some(ms) => Some(lits_view(ms@)),
                None => None,
            },
        },
        Ty::Union(ms) => TyV::Union(tys_view(ms@)),
        Ty::TypeOf(b) => TyV::TypeOf(Box::new(ty_view(*b))),
        Ty::Tuple(es) => TyV::Tuple(tys_view(es@)),
        Ty::UnboundedTuple(b) => TyV::UnboundedTuple(Box::new(ty_view(*b))),
        Ty::TypedDict(n) => TyV::TypedDict(n@),
        Ty::Quantified { name, restriction } => TyV::Quantified {
            name: name@,
            restriction: match restriction {
                Restriction::Unrestricted => RestrictionV::Unrestricted,
                Restriction::Bound(b) => RestrictionV::Bound(Box::new(ty_view(*b))),
                Restriction::Constraints(cs) => RestrictionV::Constraints(tys_view(cs@)),
            },
        },
        Ty::Var(v) => TyV::Var(v as nat),
        Ty::Other(s) => TyV::Other(s@),
    }
}

pub open spec fn tys_view(s: Seq<Ty>) -> Seq<TyV>
    decreases s, s.len(),
{
    if s.len() == 0 {
        Seq::empty()
    } else {
        seq![ty_view(s[0])] + tys_view(s.subrange(1, s.len() as int))
    }
}

/// `tys_view` maps each element by `ty_view`.
pub proof fn lemma_tys_view(s: Seq<Ty>)
    ensures
        tys_view(s).len() == s.len(),
        forall|i: int| 0 <= i < s.len() ==> #[trigger] tys_view(s)[i] == ty_view(s[i]),
    decreases s.len(),
{
    if s.len() > 0 {
        let rest = s.subrange(1, s.len() as int);
        lemma_tys_view(rest);
        assert forall|i: int| 0 <= i < s.len() implies #[trigger] tys_view(s)[i] == ty_view(s[i]) by {
            if i > 0 {
                assert(rest[i - 1] == s[i]);
            }
        }
    }
}

/// Two sequences of types with equal element views have equal views.
pub proof fn lemma_tys_view_ext(a: Seq<Ty>, b: Seq<Ty>)
    requires
        a.len() == b.len(),
        forall|i: int| 0 <= i < a.len() ==> ty_view(#[trigger] a[i]) == ty_view(b[i]),
    ensures
        tys_view(a) == tys_view(b),
{
    lemma_tys_view(a);
    lemma_tys_view(b);
    assert(tys_view(a) =~= tys_view(b));
}

impl View for Ty {
    type V = TyV;

    open spec fn view(&self) -> TyV {
        ty_view(*self)
    }
}

impl Lit {
    /// A copy with the same value.
    pub fn copy(&self) -> (r: Lit)
        ensures
            lit_view(r) == lit_view(*self),
    {
        match self {
            Lit::Bool(b) => Lit::Bool(*b),
            Lit::Int(i) => Lit::Int(*i),
            Lit::Str(s) => Lit::Str(s.clone()),
            Lit::EnumMember(c, m) => Lit::EnumMember(c.clone(), m.clone()),
        }
    }
}

/// A copy of a list of literals with the same values.
pub fn copy_lits(v: &Vec<Lit>) -> (r: Vec<Lit>)
    ensures
        lits_view(r@) == lits_view(v@),
{
    let mut r: Vec<Lit> = Vec::new();
    let mut i: usize = 0;
    while i < v.len()
        invariant
            i <= v.len(),
            r@.len() == i,
            forall|j: int| 0 <= j < i ==> lit_view(#[trigger] r@[j]) == lit_view(v@[j]),
        decreases v.len() - i,
    {
        r.push(v[i].copy());
        i = i + 1;
    }
    assert(lits_view(r@) =~= lits_view(v@));
    r
}

impl Ty {
    /// A copy with the same value.
    pub fn deep_copy(&self) -> (r: Ty)
        ensures
            r@ == self@,
        decreases self,
    {
        match self {
            Ty::Any => Ty::Any,
            Ty::Never => Ty::Never,
            Ty::Literal(l) => Ty::Literal(l.copy()),
            Ty::ClassType { module, name, targs, enum_members } => {
                let targs2 = copy_tys(targs);
                let members2 = match enum_members {
                    Some(ms) => Some(copy_lits(ms)),
                    None => None,
                };
                Ty::ClassType { module: module.clone(), name: name.clone(), targs: targs2, enum_members: members2 }
            },
            Ty::Union(ms) => Ty::Union(copy_tys(ms)),
            Ty::TypeOf(b) => Ty::TypeOf(Box::new((**b).deep_copy())),
            Ty::Tuple(es) => Ty::Tuple(copy_tys(es)),
            Ty::UnboundedTuple(b) => Ty::UnboundedTuple(Box::new((**b).deep_copy())),
            Ty::TypedDict(n) => Ty::TypedDict(n.clone()),
            Ty::Quantified { name, restriction } => {
                let r2 = match restriction {
                    Restriction::Unrestricted => Restriction::Unrestricted,
                    Restriction::Bound(b) => Restriction::Bound(Box::new((**b).deep_copy())),
                    Restriction::Constraints(cs) => Restriction::Constraints(copy_tys(cs)),
                };
                Ty::Quantified { name: name.clone(), restriction: r2 }
            },
            Ty::Var(v) => Ty::Var(*v),
            Ty::Other(s) => Ty::Other(s.clone()),
        }
    }
}

impl Ty {
    /// The type is a union.
    pub fn is_union(&self) -> (b: bool)
        ensures
            b == (self@ is Union),
    {
        match self {
            Ty::Union(_) => true,
            _ => false,
        }
    }

    /// The type is `Never`.
    pub fn is_never(&self) -> (b: bool)
        ensures
            b == (self@ is Never),
    {
        match self {
            Ty::Never => true,
            _ => false,
        }
    }

    /// The type is a tuple of known length.
    pub fn is_concrete_tuple(&self) -> (b: bool)
        ensures
            b == (self@ is Tuple),
    {
        match self {
            Ty::Tuple(_) => true,
            _ => false,
        }
    }

    /// The type is a `TypedDict`.
    pub fn is_typed_dict(&self) -> (b: bool)
        ensures
            b == (self@ is TypedDict),
    {
        match self {
            Ty::TypedDict(_) => true,
            _ => false,
        }
    }
}

impl Clone for Ty {
    fn clone(&self) -> (r: Ty)
        ensures
            r@ == self@,
    {
        self.deep_copy()
    }
}

/// A copy of a list of types with the same values.
pub fn copy_tys(v: &Vec<Ty>) -> (r: Vec<Ty>)
    ensures
        tys_view(r@) == tys_view(v@),
    decreases v, 1nat,
{
    let mut r: Vec<Ty> = Vec::new();
    let mut i: usize = 0;
    while i < v.len()
        invariant
            i <= v.len(),
            r@.len() == i,
            forall|j: int| 0 <= j < i ==> ty_view(#[trigger] r@[j]) == ty_view(v@[j]),
        decreases v.len() - i,
    {
        r.push(v[i].deep_copy());
        i = i + 1;
    }
    proof { lemma_tys_view_ext(r@, v@); }
    r
}

} // verus!
