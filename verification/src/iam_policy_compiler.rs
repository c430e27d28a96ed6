//! Lowering a policy into an IAM-style JSON document.
//!
//! Every atom becomes one statement; a composite of N atoms becomes a
//! document with exactly N statements, in declaration order. Actions
//! map to store verbs, the table name becomes an ARN-like resource
//! identifier, filters become a condition list, and an attribute clause
//! becomes an attribute list (present and empty for `Some(empty)`,
//! absent for `None`). String expressions are resolved left to right at
//! compile time; a variable becomes a `${path}` placeholder reference,
//! to be supplied by the authorization backend at request time.

use vstd::prelude::*;
use vstd::string::StrSliceExecFns;
use vstd::string::StringExecFns;

use crate::compiler::PolicyCompiler;
use crate::policy::Action;
use crate::policy::Field;
use crate::policy::Filter;
use crate::policy::FilterV;
use crate::policy::Key;
use crate::policy::Policy;
use crate::policy::PolicyAtom;
use crate::policy::PolicyAtomV;
use crate::policy::PolicyV;
use crate::policy::Resource;
use crate::policy::ResourceV;
use crate::policy::StringExpr;
use crate::policy::StringExprV;
use crate::policy::atoms_of;
use crate::policy::field_views;
use crate::policy::filter_views;
use crate::policy::string_views;
use crate::text::join_strings;
use crate::text::join_with;
use crate::text::lemma_join_with_snoc;
use crate::token::chars_to_string;

verus! {

/// The IAM-style compiler. It carries no state; the lowering is a pure
/// function of the policy.
pub struct IamPolicyCompiler {}

// ---------------------------------------------------------------------
// The document, as a function of the policy.
// ---------------------------------------------------------------------

/// One character of a JSON string body: quotes and backslashes are
/// escaped, all else stands as it is.
pub open spec fn json_escape_char(c: char) -> Seq<char> {
    if c == '"' {
        seq!['\\', '"']
    } else if c == '\\' {
        seq!['\\', '\\']
    } else {
        seq![c]
    }
}

/// A text as the body of a JSON string.
pub open spec fn json_escape(s: Seq<char>) -> Seq<char>
    decreases s.len(),
{
    if s.len() == 0 {
        Seq::empty()
    } else {
        json_escape_char(s[0]) + json_escape(s.drop_first())
    }
}

/// The store verb of an action.
pub open spec fn action_verb(a: Action) -> Seq<char> {
    match a {
        Action::Create => "dynamodb:PutItem"@,
        Action::Read => "dynamodb:GetItem"@,
        Action::Update => "dynamodb:UpdateItem"@,
        Action::Delete => "dynamodb:DeleteItem"@,
    }
}

/// The ARN-like identifier of a resource.
pub open spec fn resource_arn(r: ResourceV) -> Seq<char> {
    match r {
        ResourceV::Table(name) => "arn:aws:dynamodb:*:*:table/"@ + name,
    }
}

/// The resolved text of a string expression: literals stand as they
/// are, a variable becomes a `${path}` reference, and a concatenation
/// is resolved left to right.
pub open spec fn resolved_text(e: StringExprV) -> Seq<char>
    decreases e,
{
    match e {
        StringExprV::Literal(s) => s,
        StringExprV::Variable(v) => "${"@ + join_with(v, "."@) + "}"@,
        StringExprV::Concat(l, r) => resolved_text(*l) + resolved_text(*r),
    }
}

/// The condition operator of a filter: equality or prefix-style match.
pub open spec fn filter_operator(f: FilterV) -> Seq<char> {
    match f {
        FilterV::KeyEquals(_, _) => "StringEquals"@,
        FilterV::KeyLike(_, _) => "StringLike"@,
    }
}

/// The condition key of a key role.
pub open spec fn condition_key(k: Key) -> Seq<char> {
    match k {
        Key::Pk => "dynamodb:LeadingKeys"@,
        Key::Sk => "dynamodb:RangeKeys"@,
    }
}

pub open spec fn filter_key(f: FilterV) -> Key {
    match f {
        FilterV::KeyEquals(k, _) => k,
        FilterV::KeyLike(k, _) => k,
    }
}

pub open spec fn filter_value(f: FilterV) -> StringExprV {
    match f {
        FilterV::KeyEquals(_, e) => e,
        FilterV::KeyLike(_, e) => e,
    }
}

/// One condition entry of the statement's condition list.
pub open spec fn condition_entry(f: FilterV) -> Seq<char> {
    "{\""@ + filter_operator(f) + "\":{\""@ + condition_key(filter_key(f)) + "\":[\""@
        + json_escape(resolved_text(filter_value(f))) + "\"]}}"@
}

/// The condition clause of a statement: absent without filters, else a
/// list with one entry per filter, in order.
pub open spec fn condition_clause(fs: Seq<FilterV>) -> Seq<char> {
    if fs.len() == 0 {
        Seq::empty()
    } else {
        ",\"Condition\":["@ + join_with(fs.map_values(|f: FilterV| condition_entry(f)), ","@)
            + "]"@
    }
}

/// One quoted attribute name.
pub open spec fn quoted_field(name: Seq<char>) -> Seq<char> {
    "\""@ + json_escape(name) + "\""@
}

/// The attribute clause: absent for no projection restriction, else the
/// list of allowed attributes — empty where every field is denied.
pub open spec fn attribute_clause(attrs: Option<Seq<Seq<char>>>) -> Seq<char> {
    match attrs {
        Option::None => Seq::empty(),
        Option::Some(fields) => ",\"Attributes\":["@ + join_with(
            fields.map_values(|f: Seq<char>| quoted_field(f)),
            ","@,
        ) + "]"@,
    }
}

/// The one statement of an atom.
pub open spec fn statement_json(a: PolicyAtomV) -> Seq<char> {
    "{\"Effect\":\"Allow\",\"Action\":\""@ + action_verb(a.action) + "\",\"Resource\":\""@
        + json_escape(resource_arn(a.resource)) + "\""@ + condition_clause(a.filters)
        + attribute_clause(a.attributes) + "}"@
}

/// The document around a list of statements.
pub open spec fn doc_json(stmts: Seq<Seq<char>>) -> Seq<char> {
    "{\"Version\":\"2012-10-17\",\"Statement\":["@ + join_with(stmts, ","@) + "]}"@
}

/// The whole document of a policy: one statement per granted atom.
pub open spec fn compile_spec(p: PolicyV) -> Seq<char> {
    doc_json(atoms_of(p).map_values(|a: PolicyAtomV| statement_json(a)))
}

// ---------------------------------------------------------------------
// The executable lowering.
// ---------------------------------------------------------------------

proof fn lemma_json_escape_snoc(s: Seq<char>)
    requires
        s.len() >= 1,
    ensures
        json_escape(s) =~= json_escape(s.drop_last()) + json_escape_char(s.last()),
    decreases s.len(),
{
    if s.len() == 1 {
        assert(s.drop_first().len() == 0);
        assert(s.drop_last().len() == 0);
        assert(json_escape(s.drop_first()) =~= Seq::<char>::empty());
        assert(json_escape(s.drop_last()) =~= Seq::<char>::empty());
        assert(s.last() == s[0]);
    } else {
        let d = s.drop_first();
        lemma_json_escape_snoc(d);
        assert(d.drop_last() =~= s.drop_last().drop_first());
        assert(s.drop_last()[0] == s[0]);
        assert(s.drop_last().len() >= 1);
        assert(d.last() == s.last());
        assert(json_escape(s) =~= (json_escape_char(s[0]) + json_escape(d.drop_last()))
            + json_escape_char(s.last()));
        assert(json_escape(s.drop_last()) =~= json_escape_char(s[0]) + json_escape(
            d.drop_last(),
        ));
    }
}

/// The body of a JSON string for this text.
fn escape_json(s: &str) -> (r: String)
    ensures
        r@ == json_escape(s@),
{
    let n = s.unicode_len();
    let mut out: Vec<char> = Vec::new();
    let mut i: usize = 0;
    proof {
        assert(json_escape(s@.subrange(0, 0)) =~= Seq::<char>::empty());
        assert(out@ =~= json_escape(s@.subrange(0, 0)));
    }
    while i < n
        invariant
            n == s@.len(),
            i <= n,
            out@ == json_escape(s@.subrange(0, i as int)),
        decreases n - i,
    {
        let ghost before = out@;
        let c = s.get_char(i);
        if c == '"' {
            out.push('\\');
            out.push('"');
        } else if c == '\\' {
            out.push('\\');
            out.push('\\');
        } else {
            out.push(c);
        }
        i = i + 1;
        proof {
            lemma_json_escape_snoc(s@.subrange(0, i as int));
            assert(s@.subrange(0, i as int).drop_last() =~= s@.subrange(0, i - 1 as int));
            assert(s@.subrange(0, i as int).last() == s@[i - 1]);
            assert(out@ =~= before + json_escape_char(s@[i - 1]));
            assert(out@ =~= json_escape(s@.subrange(0, i as int)));
        }
    }
    proof {
        assert(s@.subrange(0, n as int) =~= s@);
    }
    chars_to_string(&out)
}

/// The resolved text of an expression.
fn resolve_expr(e: &StringExpr) -> (r: String)
    ensures
        r@ == resolved_text(e@),
    decreases e,
{
    match e {
        StringExpr::Literal(s) => s.clone(),
        StringExpr::Variable(v) => {
            let mut out = String::new();
            out.append("${");
            let path = join_strings(&v.0, ".");
            out.append(path.as_str());
            out.append("}");
            proof {
                assert(out@ =~= "${"@ + join_with(v@, "."@) + "}"@);
            }
            out
        },
        StringExpr::Concat(l, r) => {
            let mut out = resolve_expr(l);
            let right = resolve_expr(r);
            out.append(right.as_str());
            proof {
                assert(out@ =~= resolved_text(e@));
            }
            out
        },
    }
}

/// One condition entry.
fn condition_entry_for(f: &Filter) -> (r: String)
    ensures
        r@ == condition_entry(f@),
{
    let (operator, key, value) = match f {
        Filter::KeyEquals(k, e) => ("StringEquals", k, e),
        Filter::KeyLike(k, e) => ("StringLike", k, e),
    };
    let mut out = String::new();
    out.append("{\"");
    out.append(operator);
    out.append("\":{\"");
    match key {
        Key::Pk => out.append("dynamodb:LeadingKeys"),
        Key::Sk => out.append("dynamodb:RangeKeys"),
    }
    out.append("\":[\"");
    let resolved = resolve_expr(value);
    let escaped = escape_json(resolved.as_str());
    out.append(escaped.as_str());
    out.append("\"]}}");
    proof {
        assert(out@ =~= condition_entry(f@));
    }
    out
}

/// The one statement of an atom.
pub fn statement_for(atom: &PolicyAtom) -> (r: String)
    ensures
        r@ == statement_json(atom@),
{
    let mut out = String::new();
    out.append("{\"Effect\":\"Allow\",\"Action\":\"");
    match atom.action {
        Action::Create => out.append("dynamodb:PutItem"),
        Action::Read => out.append("dynamodb:GetItem"),
        Action::Update => out.append("dynamodb:UpdateItem"),
        Action::Delete => out.append("dynamodb:DeleteItem"),
    }
    out.append("\",\"Resource\":\"");
    match &atom.resource {
        Resource::Table(name) => {
            let mut arn = String::new();
            arn.append("arn:aws:dynamodb:*:*:table/");
            arn.append(name.as_str());
            let escaped = escape_json(arn.as_str());
            out.append(escaped.as_str());
            proof {
                assert(arn@ =~= resource_arn(atom.resource@));
            }
        },
    }
    out.append("\"");
    proof {
        assert(out@ =~= "{\"Effect\":\"Allow\",\"Action\":\""@ + action_verb(atom.action)
            + "\",\"Resource\":\""@ + json_escape(resource_arn(atom.resource@)) + "\""@);
    }
    if atom.filters.len() > 0 {
        out.append(",\"Condition\":[");
        let mut entries: Vec<String> = Vec::new();
        let mut i: usize = 0;
        let ghost fv = filter_views(atom.filters@);
        while i < atom.filters.len()
            invariant
                i <= atom.filters@.len(),
                fv == filter_views(atom.filters@),
                string_views(entries@) == fv.subrange(0, i as int).map_values(
                    |f: FilterV| condition_entry(f),
                ),
        decreases atom.filters@.len() - i,
        {
            let ghost prev = entries@;
            let entry = condition_entry_for(&atom.filters[i]);
            entries.push(entry);
            i = i + 1;
            proof {
                assert(fv.subrange(0, i as int).drop_last() =~= fv.subrange(0, i - 1 as int));
                assert(string_views(entries@) =~= string_views(prev).push(
                    condition_entry(fv[i - 1]),
                ));
                assert(fv.subrange(0, i as int).map_values(|f: FilterV| condition_entry(f))
                    =~= fv.subrange(0, i - 1 as int).map_values(
                    |f: FilterV| condition_entry(f),
                ).push(condition_entry(fv[i - 1])));
            }
        }
        let joined = join_strings(&entries, ",");
        out.append(joined.as_str());
        out.append("]");
        proof {
            assert(fv.subrange(0, atom.filters@.len() as int) =~= fv);
            assert(condition_clause(fv) =~= ",\"Condition\":["@ + join_with(
                fv.map_values(|f: FilterV| condition_entry(f)),
                ","@,
            ) + "]"@);
        }
    } else {
        proof {
            assert(condition_clause(filter_views(atom.filters@)) =~= Seq::<char>::empty());
        }
    }
    match &atom.attributes {
        Option::Some(fields) => {
            out.append(",\"Attributes\":[");
            let mut quoted: Vec<String> = Vec::new();
            let mut i: usize = 0;
            let ghost dv = field_views(fields@);
            while i < fields.len()
                invariant
                    i <= fields@.len(),
                    dv == field_views(fields@),
                    string_views(quoted@) == dv.subrange(0, i as int).map_values(
                        |f: Seq<char>| quoted_field(f),
                    ),
                decreases fields@.len() - i,
            {
                let ghost prev = quoted@;
                let mut q = String::new();
                q.append("\"");
                let escaped = escape_json(fields[i].0.as_str());
                q.append(escaped.as_str());
                q.append("\"");
                quoted.push(q);
                i = i + 1;
                proof {
                    assert(q@ =~= quoted_field(dv[i - 1]));
                    assert(dv.subrange(0, i as int).drop_last() =~= dv.subrange(
                        0,
                        i - 1 as int,
                    ));
                    assert(string_views(quoted@) =~= string_views(prev).push(
                        quoted_field(dv[i - 1]),
                    ));
                    assert(dv.subrange(0, i as int).map_values(
                        |f: Seq<char>| quoted_field(f),
                    ) =~= dv.subrange(0, i - 1 as int).map_values(
                        |f: Seq<char>| quoted_field(f),
                    ).push(quoted_field(dv[i - 1])));
                }
            }
            let joined = join_strings(&quoted, ",");
            out.append(joined.as_str());
            out.append("]");
            proof {
                assert(dv.subrange(0, fields@.len() as int) =~= dv);
                assert(atom@.attributes == Option::Some(dv));
                assert(attribute_clause(atom@.attributes) =~= ",\"Attributes\":["@ + join_with(
                    dv.map_values(|f: Seq<char>| quoted_field(f)),
                    ","@,
                ) + "]"@);
            }
        },
        Option::None => {
            proof {
                assert(attribute_clause(atom@.attributes) =~= Seq::<char>::empty());
            }
        },
    }
    out.append("}");
    proof {
        assert(out@ =~= statement_json(atom@));
    }
    out
}

impl PolicyCompiler for IamPolicyCompiler {
    /// The document of the policy: one statement per granted atom, in
    /// declaration order, wrapped in a fixed version header.
    fn compile_policy(&self, policy: &Policy) -> (r: String)
        ensures
            r@ == compile_spec(policy@),
    {
        let mut statements: Vec<String> = Vec::new();
        match policy {
            Policy::Atom(a) => {
                let s = statement_for(a);
                statements.push(s);
                proof {
                    assert(atoms_of(policy@) =~= seq![a@]);
                    assert(string_views(statements@) =~= atoms_of(policy@).map_values(
                        |x: PolicyAtomV| statement_json(x),
                    ));
                }
            },
            Policy::Composite(atoms) => {
                let ghost av = crate::policy::atom_views(atoms@);
                let mut i: usize = 0;
                while i < atoms.len()
                    invariant
                        i <= atoms@.len(),
                        av == crate::policy::atom_views(atoms@),
                        string_views(statements@) == av.subrange(0, i as int).map_values(
                            |x: PolicyAtomV| statement_json(x),
                        ),
                    decreases atoms@.len() - i,
                {
                    let ghost prev = statements@;
                    let s = statement_for(&atoms[i]);
                    statements.push(s);
                    i = i + 1;
                    proof {
                        assert(av.subrange(0, i as int).drop_last() =~= av.subrange(
                            0,
                            i - 1 as int,
                        ));
                        assert(string_views(statements@) =~= string_views(prev).push(
                            statement_json(av[i - 1]),
                        ));
                        assert(av.subrange(0, i as int).map_values(
                            |x: PolicyAtomV| statement_json(x),
                        ) =~= av.subrange(0, i - 1 as int).map_values(
                            |x: PolicyAtomV| statement_json(x),
                        ).push(statement_json(av[i - 1])));
                    }
                }
                proof {
                    assert(av.subrange(0, atoms@.len() as int) =~= av);
                    assert(atoms_of(policy@) == av);
                }
            },
        }
        let mut out = String::new();
        out.append("{\"Version\":\"2012-10-17\",\"Statement\":[");
        let joined = join_strings(&statements, ",");
        out.append(joined.as_str());
        out.append("]}");
        proof {
            assert(out@ =~= compile_spec(policy@));
        }
        out
    }
}

/// A composite of atoms compiles to a document that wraps exactly one
/// statement per atom, in declaration order, each the statement of its
/// own atom.
pub proof fn lemma_composite_statement_count(atoms: Seq<PolicyAtomV>)
    ensures
        compile_spec(PolicyV::Composite(atoms)) == doc_json(
            atoms.map_values(|a: PolicyAtomV| statement_json(a)),
        ),
        atoms.map_values(|a: PolicyAtomV| statement_json(a)).len() == atoms.len(),
        forall|i: int|
            0 <= i < atoms.len() ==> atoms.map_values(|a: PolicyAtomV| statement_json(a))[i]
                == statement_json(atoms[i]),
{
}

} // verus!
