//! The abstract syntax tree of the policy language: pure value types for
//! actions, resources, keys, string expressions, filters and policies,
//! together with their mathematical views and well-formedness conditions.

use vstd::prelude::*;

verus! {

/// The closed set of CRUD-style actions a policy may grant.
#[derive(Clone, Copy, Debug, PartialEq, Eq)]
pub enum Action {
    Create,
    Read,
    Update,
    Delete,
}

/// A protected resource; currently only logical storage tables exist,
/// but the enum is open for further kinds.
#[derive(Clone, Debug, PartialEq, Eq)]
pub enum Resource {
    Table(String),
}

/// The two structural key roles of a keyed store. Filters may only
/// constrain these roles, never arbitrary attribute names.
#[derive(Clone, Copy, Debug, PartialEq, Eq)]
pub enum Key {
    Pk,
    Sk,
}

/// A variable path: a non-empty sequence of segments naming a value
/// resolved from the runtime or compile-time context (`caller.id`).
#[derive(Clone, Debug, PartialEq, Eq)]
pub struct Var(pub Vec<String>);

/// A small closed expression language for building dynamic strings:
/// literals, variables, and binary concatenation (evaluated left to
/// right, never flattened).
#[derive(Debug, PartialEq, Eq)]
pub enum StringExpr {
    Literal(String),
    Variable(Var),
    Concat(Box<StringExpr>, Box<StringExpr>),
}

impl Clone for StringExpr {
    /// A structural copy of the expression tree.
    fn clone(&self) -> Self
        decreases self,
    {
        match self {
            StringExpr::Literal(s) => StringExpr::Literal(s.clone()),
            StringExpr::Variable(v) => StringExpr::Variable(v.clone()),
            StringExpr::Concat(l, r) => StringExpr::Concat(
                Box::new((**l).clone()),
                Box::new((**r).clone()),
            ),
        }
    }
}

/// A key-based row condition. All filters of one atom are conjunctive.
#[derive(Clone, Debug, PartialEq, Eq)]
pub enum Filter {
    KeyEquals(Key, StringExpr),
    KeyLike(Key, StringExpr),
}

/// A single attribute name used for attribute-level projection.
#[derive(Clone, Debug, PartialEq, Eq)]
pub struct Field(pub String);

/// One indivisible permission statement.
///
/// `attributes == None` means no projection restriction at all, while
/// `attributes == Some(empty)` denies every field; the two states are
/// distinct and must never be collapsed into each other.
#[derive(Clone, Debug, PartialEq, Eq)]
pub struct PolicyAtom {
    pub action: Action,
    pub resource: Resource,
    pub filters: Vec<Filter>,
    pub attributes: Option<Vec<Field>>,
}

/// A whole policy: one atom, or an ordered union of two or more atoms.
/// A `Composite` never holds fewer than two atoms; the one-atom case is
/// always represented as `Atom`.
#[derive(Clone, Debug, PartialEq, Eq)]
pub enum Policy {
    Atom(PolicyAtom),
    Composite(Vec<PolicyAtom>),
}

/// Mathematical view of a `Resource`.
#[verifier::ext_equal]
pub enum ResourceV {
    Table(Seq<char>),
}

/// Mathematical view of a `StringExpr`.
#[verifier::ext_equal]
pub enum StringExprV {
    Literal(Seq<char>),
    Variable(Seq<Seq<char>>),
    Concat(Box<StringExprV>, Box<StringExprV>),
}

/// Mathematical view of a `Filter`.
#[verifier::ext_equal]
pub enum FilterV {
    KeyEquals(Key, StringExprV),
    KeyLike(Key, StringExprV),
}

/// Mathematical view of a `PolicyAtom`.
#[verifier::ext_equal]
pub struct PolicyAtomV {
    pub action: Action,
    pub resource: ResourceV,
    pub filters: Seq<FilterV>,
    pub attributes: Option<Seq<Seq<char>>>,
}

/// Mathematical view of a `Policy`.
#[verifier::ext_equal]
pub enum PolicyV {
    Atom(PolicyAtomV),
    Composite(Seq<PolicyAtomV>),
}

/// The views of a sequence of strings.
pub open spec fn string_views(s: Seq<String>) -> Seq<Seq<char>> {
    s.map_values(|x: String| x@)
}

/// The views of a sequence of filters.
pub open spec fn filter_views(s: Seq<Filter>) -> Seq<FilterV> {
    s.map_values(|f: Filter| f@)
}

/// The views of a sequence of fields.
pub open spec fn field_views(s: Seq<Field>) -> Seq<Seq<char>> {
    s.map_values(|f: Field| f@)
}

/// The views of a sequence of atoms.
pub open spec fn atom_views(s: Seq<PolicyAtom>) -> Seq<PolicyAtomV> {
    s.map_values(|a: PolicyAtom| a@)
}

impl View for Resource {
    type V = ResourceV;

    open spec fn view(&self) -> ResourceV {
        match self {
            Resource::Table(name) => ResourceV::Table(name@),
        }
    }
}

impl View for Var {
    type V = Seq<Seq<char>>;

    open spec fn view(&self) -> Seq<Seq<char>> {
        string_views(self.0@)
    }
}

/// The view of a string expression, kept outside the `View` impl so
/// that the recursion over the tree has its own termination measure.
pub open spec fn string_expr_view(e: StringExpr) -> StringExprV
    decreases e,
{
    match e {
        StringExpr::Literal(s) => StringExprV::Literal(s@),
        StringExpr::Variable(v) => StringExprV::Variable(v@),
        StringExpr::Concat(l, r) => StringExprV::Concat(
            Box::new(string_expr_view(*l)),
            Box::new(string_expr_view(*r)),
        ),
    }
}

impl View for StringExpr {
    type V = StringExprV;

    open spec fn view(&self) -> StringExprV {
        string_expr_view(*self)
    }
}

impl View for Filter {
    type V = FilterV;

    open spec fn view(&self) -> FilterV {
        match self {
            Filter::KeyEquals(k, e) => FilterV::KeyEquals(*k, e@),
            Filter::KeyLike(k, e) => FilterV::KeyLike(*k, e@),
        }
    }
}

impl View for Field {
    type V = Seq<char>;

    open spec fn view(&self) -> Seq<char> {
        self.0@
    }
}

impl View for PolicyAtom {
    type V = PolicyAtomV;

    open spec fn view(&self) -> PolicyAtomV {
        PolicyAtomV {
            action: self.action,
            resource: self.resource@,
            filters: filter_views(self.filters@),
            attributes: match &self.attributes {
                Option::Some(fields) => Option::Some(field_views(fields@)),
                Option::None => Option::None,
            },
        }
    }
}

impl View for Policy {
    type V = PolicyV;

    open spec fn view(&self) -> PolicyV {
        match self {
            Policy::Atom(a) => PolicyV::Atom(a@),
            Policy::Composite(atoms) => PolicyV::Composite(atom_views(atoms@)),
        }
    }
}

/// A variable must name at least one path segment.
pub open spec fn wf_var(segments: Seq<Seq<char>>) -> bool {
    segments.len() >= 1
}

/// Every variable inside the expression is non-empty.
pub open spec fn wf_string_expr(e: StringExprV) -> bool
    decreases e,
{
    match e {
        StringExprV::Literal(_) => true,
        StringExprV::Variable(v) => wf_var(v),
        StringExprV::Concat(l, r) => wf_string_expr(*l) && wf_string_expr(*r),
    }
}

pub open spec fn wf_filter(f: FilterV) -> bool {
    match f {
        FilterV::KeyEquals(_, e) => wf_string_expr(e),
        FilterV::KeyLike(_, e) => wf_string_expr(e),
    }
}

pub open spec fn wf_atom(a: PolicyAtomV) -> bool {
    forall|i: int| 0 <= i < a.filters.len() ==> wf_filter(#[trigger] a.filters[i])
}

/// The structural invariant of a policy: a `Composite` holds at least
/// two atoms (one atom is always `Atom`, and the empty policy does not
/// exist), and every atom is well formed.
pub open spec fn wf_policy(p: PolicyV) -> bool {
    match p {
        PolicyV::Atom(a) => wf_atom(a),
        PolicyV::Composite(atoms) => {
            &&& atoms.len() >= 2
            &&& forall|i: int| 0 <= i < atoms.len() ==> wf_atom(#[trigger] atoms[i])
        },
    }
}

/// The atoms granted by a policy, in declaration order.
pub open spec fn atoms_of(p: PolicyV) -> Seq<PolicyAtomV> {
    match p {
        PolicyV::Atom(a) => seq![a],
        PolicyV::Composite(atoms) => atoms,
    }
}

impl StringExpr {
    /// Whether every variable inside names at least one segment.
    pub fn well_formed(&self) -> (r: bool)
        ensures
            r == wf_string_expr(self@),
        decreases self,
    {
        match self {
            StringExpr::Literal(_) => true,
            StringExpr::Variable(v) => v.0.len() >= 1,
            StringExpr::Concat(l, r) => l.well_formed() && r.well_formed(),
        }
    }
}

impl Filter {
    /// Whether the filter's value expression is well formed.
    pub fn well_formed(&self) -> (r: bool)
        ensures
            r == wf_filter(self@),
    {
        match self {
            Filter::KeyEquals(_, e) => e.well_formed(),
            Filter::KeyLike(_, e) => e.well_formed(),
        }
    }
}

impl PolicyAtom {
    /// Whether every filter of the atom is well formed.
    pub fn well_formed(&self) -> (r: bool)
        ensures
            r == wf_atom(self@),
    {
        let mut i: usize = 0;
        while i < self.filters.len()
            invariant
                i <= self.filters@.len(),
                forall|k: int| 0 <= k < i ==> wf_filter(#[trigger] filter_views(
                    self.filters@,
                )[k]),
            decreases self.filters@.len() - i,
        {
            if !self.filters[i].well_formed() {
                proof {
                    assert(self@.filters[i as int] == self.filters@[i as int]@);
                    assert(!wf_filter(self@.filters[i as int]));
                }
                return false;
            }
            i = i + 1;
            proof {
                assert(filter_views(self.filters@)[i - 1] == self.filters@[i - 1]@);
            }
        }
        true
    }
}

impl Policy {
    /// Whether the policy satisfies the structural invariant: a
    /// `Composite` of at least two atoms, every atom well formed.
    pub fn well_formed(&self) -> (r: bool)
        ensures
            r == wf_policy(self@),
    {
        match self {
            Policy::Atom(a) => a.well_formed(),
            Policy::Composite(atoms) => {
                if atoms.len() < 2 {
                    return false;
                }
                let mut i: usize = 0;
                while i < atoms.len()
                    invariant
                        self@ == PolicyV::Composite(atom_views(atoms@)),
                        atoms@.len() >= 2,
                        i <= atoms@.len(),
                        forall|k: int| 0 <= k < i ==> wf_atom(#[trigger] atom_views(
                            atoms@,
                        )[k]),
                    decreases atoms@.len() - i,
                {
                    if !atoms[i].well_formed() {
                        proof {
                            assert(atom_views(atoms@)[i as int] == atoms@[i as int]@);
                            assert(!wf_atom(atom_views(atoms@)[i as int]));
                        }
                        return false;
                    }
                    i = i + 1;
                    proof {
                        assert(atom_views(atoms@)[i - 1] == atoms@[i - 1]@);
                    }
                }
                true
            },
        }
    }
}

} // verus!
