//! The canonical renderer: from a policy back to the token stream the
//! parser reads. Rendering then parsing returns the same policy; see
//! `lemma_parse_render_round_trip`.

use vstd::prelude::*;

use crate::policy::Action;
use crate::policy::Field;
use crate::policy::Filter;
use crate::policy::FilterV;
use crate::policy::Key;
use crate::policy::Policy;
use crate::policy::PolicyAtom;
use crate::policy::PolicyAtomV;
use crate::policy::PolicyV;
use crate::policy::Resource;
use crate::policy::ResourceV;
use crate::policy::StringExpr;
use crate::policy::StringExprV;
use crate::policy::Var;
use crate::policy::atoms_of;
use crate::parser::sp_var_tail;
use crate::token::Token;
use crate::token::TokenV;
use crate::token::token_views;

verus! {

// ---------------------------------------------------------------------
// The specification-level renderer.
// ---------------------------------------------------------------------

pub open spec fn render_action(a: Action) -> TokenV {
    match a {
        Action::Create => TokenV::Ident("create"@),
        Action::Read => TokenV::Ident("read"@),
        Action::Update => TokenV::Ident("update"@),
        Action::Delete => TokenV::Ident("delete"@),
    }
}

pub open spec fn render_key(k: Key) -> Seq<TokenV> {
    match k {
        Key::Pk => seq![TokenV::Dollar, TokenV::Ident("pk"@)],
        Key::Sk => seq![TokenV::Dollar, TokenV::Ident("sk"@)],
    }
}

/// The `("." Ident)*` tail of a variable path.
pub open spec fn render_var_tail(segments: Seq<Seq<char>>) -> Seq<TokenV>
    decreases segments.len(),
{
    if segments.len() == 0 {
        Seq::empty()
    } else {
        seq![TokenV::Dot, TokenV::Ident(segments[0])] + render_var_tail(segments.drop_first())
    }
}

pub open spec fn render_var(segments: Seq<Seq<char>>) -> Seq<TokenV> {
    seq![TokenV::Dollar, TokenV::Ident(segments[0])] + render_var_tail(segments.drop_first())
}

pub open spec fn render_expr(e: StringExprV) -> Seq<TokenV>
    decreases e,
{
    match e {
        StringExprV::Literal(s) => seq![TokenV::LitStr(s)],
        StringExprV::Variable(v) => render_var(v),
        StringExprV::Concat(l, r) => seq![TokenV::Ident("concat"@), TokenV::LParen]
            + render_expr(*l) + seq![TokenV::Comma] + render_expr(*r) + seq![TokenV::RParen],
    }
}

pub open spec fn render_filter(f: FilterV) -> Seq<TokenV> {
    match f {
        FilterV::KeyEquals(k, e) => seq![TokenV::Ident("key_equals"@)] + render_key(k)
            + render_expr(e),
        FilterV::KeyLike(k, e) => seq![TokenV::Ident("key_like"@)] + render_key(k)
            + render_expr(e),
    }
}

pub open spec fn render_filters(fs: Seq<FilterV>) -> Seq<TokenV>
    decreases fs.len(),
{
    if fs.len() == 0 {
        Seq::empty()
    } else {
        seq![TokenV::Ident("where"@)] + render_filter(fs[0]) + render_filters(fs.drop_first())
    }
}

pub open spec fn render_fields_tail(fields: Seq<Seq<char>>) -> Seq<TokenV>
    decreases fields.len(),
{
    if fields.len() == 0 {
        Seq::empty()
    } else {
        seq![TokenV::Comma, TokenV::LitStr(fields[0])] + render_fields_tail(
            fields.drop_first(),
        )
    }
}

pub open spec fn render_fields(fields: Seq<Seq<char>>) -> Seq<TokenV> {
    if fields.len() == 0 {
        Seq::empty()
    } else {
        seq![TokenV::LitStr(fields[0])] + render_fields_tail(fields.drop_first())
    }
}

pub open spec fn render_attrs(attrs: Option<Seq<Seq<char>>>) -> Seq<TokenV> {
    match attrs {
        Option::None => Seq::empty(),
        Option::Some(fields) => seq![
            TokenV::Ident("with"@),
            TokenV::Ident("attributes"@),
            TokenV::LBracket,
        ] + render_fields(fields) + seq![TokenV::RBracket],
    }
}

pub open spec fn render_resource(r: ResourceV) -> Seq<TokenV> {
    match r {
        ResourceV::Table(name) => seq![TokenV::Ident("table"@), TokenV::LitStr(name)],
    }
}

pub open spec fn render_atom(a: PolicyAtomV) -> Seq<TokenV> {
    seq![TokenV::Ident("allow"@), render_action(a.action), TokenV::Ident("on"@)]
        + render_resource(a.resource) + render_filters(a.filters) + render_attrs(a.attributes)
}

pub open spec fn render_atoms(atoms: Seq<PolicyAtomV>) -> Seq<TokenV>
    decreases atoms.len(),
{
    if atoms.len() == 0 {
        Seq::empty()
    } else {
        render_atom(atoms[0]) + render_atoms(atoms.drop_first())
    }
}

/// The canonical token stream of a policy.
pub open spec fn render_policy(p: PolicyV) -> Seq<TokenV> {
    render_atoms(atoms_of(p))
}

// ---------------------------------------------------------------------
// The executable renderer: appends the canonical tokens of each piece.
// ---------------------------------------------------------------------

fn push_key(out: &mut Vec<Token>, k: Key)
    ensures
        token_views(final(out)@) == token_views(old(out)@) + render_key(k),
{
    let ghost prev = out@;
    out.push(Token::Dollar);
    match k {
        Key::Pk => out.push(Token::Ident("pk".to_owned())),
        Key::Sk => out.push(Token::Ident("sk".to_owned())),
    }
    proof {
        assert(token_views(out@) =~= token_views(prev) + render_key(k));
    }
}

fn push_expr(out: &mut Vec<Token>, e: &StringExpr)
    requires
        crate::policy::wf_string_expr(e@),
    ensures
        token_views(final(out)@) == token_views(old(out)@) + render_expr(e@),
    decreases e,
{
    match e {
        StringExpr::Literal(s) => {
            let ghost prev = out@;
            out.push(Token::LitStr(s.clone()));
            proof {
                assert(token_views(out@) =~= token_views(prev) + render_expr(e@));
            }
        },
        StringExpr::Variable(v) => {
            let ghost prev = out@;
            proof {
                assert(v@.len() >= 1);
                assert(v@.len() == v.0@.len());
            }
            out.push(Token::Dollar);
            out.push(Token::Ident(v.0[0].clone()));
            let n = v.0.len();
            let mut i: usize = 1;
            proof {
                assert(v@[0] == v.0@[0]@);
                assert(render_var_tail(v@.subrange(1, 1)) =~= Seq::<TokenV>::empty());
                assert(token_views(out@) =~= token_views(prev) + seq![
                    TokenV::Dollar,
                    TokenV::Ident(v@[0]),
                ] + render_var_tail(v@.subrange(1, 1)));
            }
            while i < n
                invariant
                    1 <= i <= n,
                    n == v.0@.len(),
                    n == v@.len(),
                    v@ == crate::policy::string_views(v.0@),
                    token_views(out@) == token_views(prev) + seq![
                        TokenV::Dollar,
                        TokenV::Ident(v@[0]),
                    ] + render_var_tail(v@.subrange(1, i as int)),
                decreases n - i,
            {
                let ghost before = out@;
                out.push(Token::Dot);
                out.push(Token::Ident(v.0[i].clone()));
                i = i + 1;
                proof {
                    lemma_render_var_tail_snoc(v@.subrange(1, i as int));
                    assert(v@.subrange(1, i as int).drop_last() =~= v@.subrange(
                        1,
                        i - 1 as int,
                    ));
                    assert(v@.subrange(1, i as int).last() == v@[i - 1]);
                    assert(v@[i - 1] == v.0@[i - 1]@);
                    assert(token_views(out@) =~= token_views(before) + seq![
                        TokenV::Dot,
                        TokenV::Ident(v@[i - 1]),
                    ]);
                    assert(token_views(out@) =~= token_views(prev) + seq![
                        TokenV::Dollar,
                        TokenV::Ident(v@[0]),
                    ] + render_var_tail(v@.subrange(1, i as int)));
                }
            }
            proof {
                assert(v@.subrange(1, n as int) =~= v@.drop_first());
                assert(token_views(out@) =~= token_views(prev) + render_var(v@));
            }
        },
        StringExpr::Concat(l, r) => {
            let ghost prev = out@;
            out.push(Token::Ident("concat".to_owned()));
            out.push(Token::LParen);
            proof {
                assert(token_views(out@) =~= token_views(prev) + seq![
                    TokenV::Ident("concat"@),
                    TokenV::LParen,
                ]);
            }
            push_expr(out, l);
            let ghost mid1 = out@;
            out.push(Token::Comma);
            proof {
                assert(token_views(out@) =~= token_views(mid1) + seq![TokenV::Comma]);
            }
            push_expr(out, r);
            let ghost mid2 = out@;
            out.push(Token::RParen);
            proof {
                assert(token_views(out@) =~= token_views(mid2) + seq![TokenV::RParen]);
                assert(token_views(out@) =~= token_views(prev) + render_expr(e@));
            }
        },
    }
}

proof fn lemma_render_var_tail_snoc(segments: Seq<Seq<char>>)
    requires
        segments.len() >= 1,
    ensures
        render_var_tail(segments) =~= render_var_tail(segments.drop_last()) + seq![
            TokenV::Dot,
            TokenV::Ident(segments.last()),
        ],
    decreases segments.len(),
{
    if segments.len() == 1 {
        assert(segments.drop_first().len() == 0);
        assert(segments.drop_last().len() == 0);
        assert(render_var_tail(segments.drop_first()) =~= Seq::<TokenV>::empty());
        assert(render_var_tail(segments.drop_last()) =~= Seq::<TokenV>::empty());
        assert(segments.last() == segments[0]);
    } else {
        let d = segments.drop_first();
        lemma_render_var_tail_snoc(d);
        assert(d.drop_last() =~= segments.drop_last().drop_first());
        assert(segments.drop_last()[0] == segments[0]);
        assert(segments.drop_last().len() >= 1);
        assert(d.last() == segments.last());
        assert(render_var_tail(segments) =~= (seq![
            TokenV::Dot,
            TokenV::Ident(segments[0]),
        ] + render_var_tail(d.drop_last())) + seq![
            TokenV::Dot,
            TokenV::Ident(segments.last()),
        ]);
    }
}


fn push_filter(out: &mut Vec<Token>, f: &Filter)
    requires
        crate::policy::wf_filter(f@),
    ensures
        token_views(final(out)@) == token_views(old(out)@) + render_filter(f@),
{
    let ghost prev = out@;
    match f {
        Filter::KeyEquals(k, e) => {
            out.push(Token::Ident("key_equals".to_owned()));
            push_key(out, *k);
            push_expr(out, e);
        },
        Filter::KeyLike(k, e) => {
            out.push(Token::Ident("key_like".to_owned()));
            push_key(out, *k);
            push_expr(out, e);
        },
    }
    proof {
        assert(token_views(out@) =~= token_views(prev) + render_filter(f@));
    }
}

proof fn lemma_render_filters_snoc(fs: Seq<FilterV>)
    requires
        fs.len() >= 1,
    ensures
        render_filters(fs) =~= render_filters(fs.drop_last()) + seq![
            TokenV::Ident("where"@),
        ] + render_filter(fs.last()),
    decreases fs.len(),
{
    if fs.len() == 1 {
        assert(fs.drop_first().len() == 0);
        assert(fs.drop_last().len() == 0);
        assert(render_filters(fs.drop_first()) =~= Seq::<TokenV>::empty());
        assert(render_filters(fs.drop_last()) =~= Seq::<TokenV>::empty());
        assert(fs.last() == fs[0]);
    } else {
        let d = fs.drop_first();
        lemma_render_filters_snoc(d);
        assert(d.drop_last() =~= fs.drop_last().drop_first());
        assert(fs.drop_last()[0] == fs[0]);
        assert(fs.drop_last().len() >= 1);
        assert(d.last() == fs.last());
        assert(render_filters(fs) =~= ((seq![TokenV::Ident("where"@)] + render_filter(fs[0])
            + render_filters(d.drop_last())) + seq![TokenV::Ident("where"@)]) + render_filter(
            fs.last(),
        ));
        assert(render_filters(fs.drop_last()) =~= seq![TokenV::Ident("where"@)] + render_filter(
            fs[0],
        ) + render_filters(d.drop_last()));
    }
}

fn push_filters(out: &mut Vec<Token>, fs: &Vec<Filter>)
    requires
        forall|i: int| 0 <= i < fs@.len() ==> crate::policy::wf_filter(#[trigger] fs@[i]@),
    ensures
        token_views(final(out)@) == token_views(old(out)@) + render_filters(
            crate::policy::filter_views(fs@),
        ),
{
    let ghost prev = out@;
    let ghost fv = crate::policy::filter_views(fs@);
    let mut i: usize = 0;
    proof {
        assert(render_filters(fv.subrange(0, 0)) =~= Seq::<TokenV>::empty());
        assert(token_views(out@) =~= token_views(prev) + render_filters(fv.subrange(0, 0)));
    }
    while i < fs.len()
        invariant
            i <= fs@.len(),
            fv == crate::policy::filter_views(fs@),
            forall|k: int| 0 <= k < fs@.len() ==> crate::policy::wf_filter(#[trigger] fs@[k]@),
            token_views(out@) == token_views(prev) + render_filters(fv.subrange(0, i as int)),
        decreases fs@.len() - i,
    {
        let ghost before = out@;
        out.push(Token::Ident("where".to_owned()));
        push_filter(out, &fs[i]);
        i = i + 1;
        proof {
            lemma_render_filters_snoc(fv.subrange(0, i as int));
            assert(fv.subrange(0, i as int).drop_last() =~= fv.subrange(0, i - 1 as int));
            assert(fv.subrange(0, i as int).last() == fs@[i - 1]@);
            assert(token_views(out@) =~= token_views(before) + seq![
                TokenV::Ident("where"@),
            ] + render_filter(fs@[i - 1]@));
            assert(token_views(out@) =~= token_views(prev) + render_filters(
                fv.subrange(0, i as int),
            ));
        }
    }
    proof {
        assert(fv.subrange(0, fs@.len() as int) =~= fv);
    }
}

proof fn lemma_render_fields_snoc(fields: Seq<Seq<char>>)
    requires
        fields.len() >= 2,
    ensures
        render_fields(fields) =~= render_fields(fields.drop_last()) + seq![
            TokenV::Comma,
            TokenV::LitStr(fields.last()),
        ],
    decreases fields.len(),
{
    lemma_render_fields_tail_snoc(fields.drop_first());
    assert(fields.drop_first().drop_last() =~= fields.drop_last().drop_first());
    assert(fields.drop_last()[0] == fields[0]);
}

proof fn lemma_render_fields_tail_snoc(fields: Seq<Seq<char>>)
    requires
        fields.len() >= 1,
    ensures
        render_fields_tail(fields) =~= render_fields_tail(fields.drop_last()) + seq![
            TokenV::Comma,
            TokenV::LitStr(fields.last()),
        ],
    decreases fields.len(),
{
    if fields.len() == 1 {
        assert(fields.drop_first().len() == 0);
        assert(fields.drop_last().len() == 0);
        assert(render_fields_tail(fields.drop_first()) =~= Seq::<TokenV>::empty());
        assert(render_fields_tail(fields.drop_last()) =~= Seq::<TokenV>::empty());
        assert(fields.last() == fields[0]);
    } else {
        let d = fields.drop_first();
        lemma_render_fields_tail_snoc(d);
        assert(d.drop_last() =~= fields.drop_last().drop_first());
        assert(fields.drop_last()[0] == fields[0]);
        assert(fields.drop_last().len() >= 1);
        assert(d.last() == fields.last());
        assert(render_fields_tail(fields) =~= (seq![
            TokenV::Comma,
            TokenV::LitStr(fields[0]),
        ] + render_fields_tail(d.drop_last())) + seq![
            TokenV::Comma,
            TokenV::LitStr(fields.last()),
        ]);
    }
}

fn push_fields(out: &mut Vec<Token>, fields: &Vec<Field>)
    ensures
        token_views(final(out)@) == token_views(old(out)@) + render_fields(
            crate::policy::field_views(fields@),
        ),
{
    let ghost prev = out@;
    let ghost fv = crate::policy::field_views(fields@);
    if fields.len() == 0 {
        proof {
            assert(render_fields(fv) =~= Seq::<TokenV>::empty());
            assert(token_views(out@) =~= token_views(prev) + render_fields(fv));
        }
        return ;
    }
    let first = &fields[0];
    out.push(Token::LitStr(first.0.clone()));
    let mut i: usize = 1;
    proof {
        assert(fv[0] == fields@[0]@);
        assert(render_fields(fv.subrange(0, 1)) =~= seq![TokenV::LitStr(fv[0])]);
        assert(token_views(out@) =~= token_views(prev) + render_fields(fv.subrange(0, 1)));
    }
    while i < fields.len()
        invariant
            1 <= i <= fields@.len(),
            fv == crate::policy::field_views(fields@),
            token_views(out@) == token_views(prev) + render_fields(fv.subrange(0, i as int)),
        decreases fields@.len() - i,
    {
        let ghost before = out@;
        out.push(Token::Comma);
        out.push(Token::LitStr(fields[i].0.clone()));
        i = i + 1;
        proof {
            lemma_render_fields_snoc(fv.subrange(0, i as int));
            assert(fv.subrange(0, i as int).drop_last() =~= fv.subrange(0, i - 1 as int));
            assert(fv.subrange(0, i as int).last() == fields@[i - 1]@);
            assert(token_views(out@) =~= token_views(before) + seq![
                TokenV::Comma,
                TokenV::LitStr(fields@[i - 1]@),
            ]);
            assert(token_views(out@) =~= token_views(prev) + render_fields(
                fv.subrange(0, i as int),
            ));
        }
    }
    proof {
        assert(fv.subrange(0, fields@.len() as int) =~= fv);
    }
}

impl PolicyAtom {
    /// Appends the canonical tokens of this atom.
    pub fn render_onto(&self, out: &mut Vec<Token>)
        requires
            crate::policy::wf_atom(self@),
        ensures
            token_views(final(out)@) == token_views(old(out)@) + render_atom(self@),
    {
        let ghost prev = out@;
        out.push(Token::Ident("allow".to_owned()));
        match self.action {
            Action::Create => out.push(Token::Ident("create".to_owned())),
            Action::Read => out.push(Token::Ident("read".to_owned())),
            Action::Update => out.push(Token::Ident("update".to_owned())),
            Action::Delete => out.push(Token::Ident("delete".to_owned())),
        }
        out.push(Token::Ident("on".to_owned()));
        match &self.resource {
            Resource::Table(name) => {
                out.push(Token::Ident("table".to_owned()));
                out.push(Token::LitStr(name.clone()));
            },
        }
        proof {
            assert(token_views(out@) =~= token_views(prev) + seq![
                TokenV::Ident("allow"@),
                render_action(self.action),
                TokenV::Ident("on"@),
            ] + render_resource(self.resource@));
            assert forall|i: int| 0 <= i < self.filters@.len() implies crate::policy::wf_filter(
                #[trigger] self.filters@[i]@,
            ) by {
                assert(self@.filters[i] == self.filters@[i]@);
            }
        }
        push_filters(out, &self.filters);
        let ghost mid = out@;
        match &self.attributes {
            Option::Some(fields) => {
                out.push(Token::Ident("with".to_owned()));
                out.push(Token::Ident("attributes".to_owned()));
                out.push(Token::LBracket);
                proof {
                    assert(token_views(out@) =~= token_views(mid) + seq![
                        TokenV::Ident("with"@),
                        TokenV::Ident("attributes"@),
                        TokenV::LBracket,
                    ]);
                }
                push_fields(out, fields);
                let ghost mid2 = out@;
                out.push(Token::RBracket);
                proof {
                    assert(token_views(out@) =~= token_views(mid2) + seq![TokenV::RBracket]);
                    assert(self@.attributes == Option::Some(crate::policy::field_views(
                        fields@,
                    )));
                }
            },
            Option::None => {
                proof {
                    assert(render_attrs(self@.attributes) =~= Seq::<TokenV>::empty());
                }
            },
        }
        proof {
            assert(token_views(out@) =~= token_views(prev) + render_atom(self@));
        }
    }
}

impl Policy {
    /// The canonical token stream of this policy: parsing it returns
    /// this very policy.
    pub fn render(&self) -> (r: Vec<Token>)
        requires
            crate::policy::wf_policy(self@),
        ensures
            token_views(r@) == render_policy(self@),
    {
        let mut out: Vec<Token> = Vec::new();
        proof {
            assert(token_views(out@) =~= Seq::<TokenV>::empty());
        }
        match self {
            Policy::Atom(a) => {
                a.render_onto(&mut out);
                proof {
                    assert(atoms_of(self@) =~= seq![a@]);
                    assert(atoms_of(self@).drop_first().len() == 0);
                    assert(render_atoms(atoms_of(self@).drop_first()) =~= Seq::<
                        TokenV,
                    >::empty());
                    assert(atoms_of(self@)[0] == a@);
                    assert(render_atoms(atoms_of(self@)) =~= render_atom(a@));
                    assert(token_views(out@) =~= render_policy(self@));
                }
            },
            Policy::Composite(atoms) => {
                let ghost av = crate::policy::atom_views(atoms@);
                let mut i: usize = 0;
                proof {
                    assert(render_atoms(av.subrange(0, 0)) =~= Seq::<TokenV>::empty());
                    assert(token_views(out@) =~= render_atoms(av.subrange(0, 0)));
                    assert forall|k: int| 0 <= k < atoms@.len() implies crate::policy::wf_atom(
                        #[trigger] atoms@[k]@,
                    ) by {
                        assert(av[k] == atoms@[k]@);
                    }
                }
                while i < atoms.len()
                    invariant
                        i <= atoms@.len(),
                        av == crate::policy::atom_views(atoms@),
                        forall|k: int|
                            0 <= k < atoms@.len() ==> crate::policy::wf_atom(
                                #[trigger] atoms@[k]@,
                            ),
                        token_views(out@) == render_atoms(av.subrange(0, i as int)),
                    decreases atoms@.len() - i,
                {
                    let ghost before = out@;
                    atoms[i].render_onto(&mut out);
                    i = i + 1;
                    proof {
                        lemma_render_atoms_snoc(av.subrange(0, i as int));
                        assert(av.subrange(0, i as int).drop_last() =~= av.subrange(
                            0,
                            i - 1 as int,
                        ));
                        assert(av.subrange(0, i as int).last() == atoms@[i - 1]@);
                        assert(token_views(out@) =~= render_atoms(av.subrange(0, i as int)));
                    }
                }
                proof {
                    assert(av.subrange(0, atoms@.len() as int) =~= av);
                    assert(atoms_of(self@) == av);
                }
            },
        }
        out
    }
}

proof fn lemma_render_atoms_snoc(atoms: Seq<PolicyAtomV>)
    requires
        atoms.len() >= 1,
    ensures
        render_atoms(atoms) =~= render_atoms(atoms.drop_last()) + render_atom(atoms.last()),
    decreases atoms.len(),
{
    if atoms.len() == 1 {
        assert(atoms.drop_first().len() == 0);
        assert(atoms.drop_last().len() == 0);
        assert(render_atoms(atoms.drop_first()) =~= Seq::<TokenV>::empty());
        assert(render_atoms(atoms.drop_last()) =~= Seq::<TokenV>::empty());
        assert(atoms.last() == atoms[0]);
    } else {
        let d = atoms.drop_first();
        lemma_render_atoms_snoc(d);
        assert(d.drop_last() =~= atoms.drop_last().drop_first());
        assert(atoms.drop_last()[0] == atoms[0]);
        assert(atoms.drop_last().len() >= 1);
        assert(d.last() == atoms.last());
        assert(render_atoms(atoms) =~= (render_atom(atoms[0]) + render_atoms(d.drop_last()))
            + render_atom(atoms.last()));
        assert(render_atoms(atoms.drop_last()) =~= render_atom(atoms[0]) + render_atoms(
            d.drop_last(),
        ));
    }
}


// ---------------------------------------------------------------------
// Round trip: parsing the canonical rendering of a well-formed policy
// returns exactly that policy.
// ---------------------------------------------------------------------

/// The tokens `r` sit in `t` at position `i`.
pub open spec fn tokens_at(t: Seq<TokenV>, i: int, r: Seq<TokenV>) -> bool {
    &&& 0 <= i
    &&& i + r.len() <= t.len()
    &&& forall|k: int| 0 <= k < r.len() ==> t[i + k] == #[trigger] r[k]
}

proof fn lemma_tokens_at_split(t: Seq<TokenV>, i: int, a: Seq<TokenV>, b: Seq<TokenV>)
    requires
        tokens_at(t, i, a + b),
    ensures
        tokens_at(t, i, a),
        tokens_at(t, i + a.len(), b),
{
    assert forall|k: int| 0 <= k < a.len() implies t[i + k] == #[trigger] a[k] by {
        assert((a + b)[k] == a[k]);
    }
    assert forall|k: int| 0 <= k < b.len() implies t[i + a.len() + k] == #[trigger] b[k] by {
        assert((a + b)[a.len() + k] == b[k]);
    }
}

/// The keywords of the grammar are pairwise distinct where the parser
/// tells them apart.
proof fn lemma_keywords_distinct()
    ensures
        "create"@ != "read"@,
        "create"@ != "update"@,
        "create"@ != "delete"@,
        "read"@ != "update"@,
        "read"@ != "delete"@,
        "update"@ != "delete"@,
        "pk"@ != "sk"@,
        "key_equals"@ != "key_like"@,
        "where"@ != "with"@,
        "allow"@ != "where"@,
        "allow"@ != "with"@,
{
    reveal_strlit("create");
    reveal_strlit("read");
    reveal_strlit("update");
    reveal_strlit("delete");
    reveal_strlit("pk");
    reveal_strlit("sk");
    reveal_strlit("key_equals");
    reveal_strlit("key_like");
    reveal_strlit("where");
    reveal_strlit("with");
    reveal_strlit("allow");
    assert("create"@.len() == 6);
    assert("read"@.len() == 4);
    assert("update"@.len() == 6);
    assert("delete"@.len() == 6);
    assert("pk"@.len() == 2);
    assert("sk"@.len() == 2);
    assert("key_equals"@.len() == 10);
    assert("key_like"@.len() == 8);
    assert("where"@.len() == 5);
    assert("with"@.len() == 4);
    assert("allow"@.len() == 5);
    assert("create"@[0] == 'c');
    assert("update"@[0] == 'u');
    assert("delete"@[0] == 'd');
    assert("pk"@[0] == 'p');
    assert("sk"@[0] == 's');
    assert("where"@[0] == 'w');
    assert("allow"@[0] == 'a');
}

proof fn lemma_rt_var_tail(t: Seq<TokenV>, i: int, segments: Seq<Seq<char>>)
    requires
        tokens_at(t, i, render_var_tail(segments)),
        i + render_var_tail(segments).len() < t.len() ==> !(t[i + render_var_tail(
            segments,
        ).len()] is Dot),
    ensures
        sp_var_tail(t, i) == (segments, i + render_var_tail(segments).len()),
    decreases segments.len(),
{
    if segments.len() == 0 {
        assert(render_var_tail(segments).len() == 0);
        if i < t.len() {
            assert(!(t[i] is Dot));
        }
    } else {
        let head = seq![TokenV::Dot, TokenV::Ident(segments[0])];
        let rest = render_var_tail(segments.drop_first());
        assert(render_var_tail(segments) == head + rest);
        lemma_tokens_at_split(t, i, head, rest);
        assert(t[i] == head[0]);
        assert(t[i + 1] == head[1]);
        lemma_rt_var_tail(t, i + 2, segments.drop_first());
        assert(seq![t[i + 1]->Ident_0] + segments.drop_first() =~= segments);
        assert(sp_var_tail(t, i).1 == i + render_var_tail(segments).len());
    }
}

proof fn lemma_rt_expr(t: Seq<TokenV>, i: int, e: StringExprV)
    requires
        crate::policy::wf_string_expr(e),
        tokens_at(t, i, render_expr(e)),
        i + render_expr(e).len() < t.len() ==> !(t[i + render_expr(e).len()] is Dot),
    ensures
        crate::parser::sp_parse_string_expr(t, i) == Option::Some(
            (e, i + render_expr(e).len()),
        ),
    decreases e,
{
    lemma_keywords_distinct();
    match e {
        StringExprV::Literal(s) => {
            assert(t[i] == render_expr(e)[0]);
        },
        StringExprV::Variable(v) => {
            let head = seq![TokenV::Dollar, TokenV::Ident(v[0])];
            let rest = render_var_tail(v.drop_first());
            assert(render_expr(e) == head + rest);
            lemma_tokens_at_split(t, i, head, rest);
            assert(t[i] == head[0]);
            assert(t[i + 1] == head[1]);
            lemma_rt_var_tail(t, i + 2, v.drop_first());
            assert(seq![t[i + 1]->Ident_0] + v.drop_first() =~= v);
            assert(crate::parser::sp_parse_var(t, i) == Option::Some(
                (v, i + render_expr(e).len()),
            ));
        },
        StringExprV::Concat(l, r) => {
            let head = seq![TokenV::Ident("concat"@), TokenV::LParen];
            let rl = render_expr(*l);
            let rr = render_expr(*r);
            assert(render_expr(e) == head + rl + seq![TokenV::Comma] + rr + seq![
                TokenV::RParen,
            ]);
            lemma_tokens_at_split(t, i, head + rl + seq![TokenV::Comma] + rr, seq![
                TokenV::RParen,
            ]);
            lemma_tokens_at_split(t, i, head + rl + seq![TokenV::Comma], rr);
            lemma_tokens_at_split(t, i, head + rl, seq![TokenV::Comma]);
            lemma_tokens_at_split(t, i, head, rl);
            assert(t[i] == head[0]);
            assert(t[i + 1] == head[1]);
            let j = i + 2 + rl.len();
            assert(head.len() == 2);
            assert((head + rl).len() == 2 + rl.len());
            assert(t[i + (head + rl).len()] == (seq![TokenV::Comma])[0]);
            assert(t[j] == TokenV::Comma);
            let k = j + 1 + rr.len();
            assert((head + rl + seq![TokenV::Comma] + rr).len() == 3 + rl.len() + rr.len());
            assert(t[i + (head + rl + seq![TokenV::Comma] + rr).len()] == (seq![
                TokenV::RParen,
            ])[0]);
            assert(t[k] == TokenV::RParen);
            lemma_rt_expr(t, i + 2, *l);
            lemma_rt_expr(t, j + 1, *r);
            assert(render_expr(e).len() == 2 + rl.len() + 1 + rr.len() + 1);
        },
    }
}

proof fn lemma_rt_filter(t: Seq<TokenV>, i: int, f: FilterV)
    requires
        crate::policy::wf_filter(f),
        tokens_at(t, i, render_filter(f)),
        i + render_filter(f).len() < t.len() ==> !(t[i + render_filter(f).len()] is Dot),
    ensures
        crate::parser::sp_parse_filter(t, i) == Option::Some((f, i + render_filter(f).len())),
{
    lemma_keywords_distinct();
    let (kw, k, e) = match f {
        FilterV::KeyEquals(k, e) => ("key_equals"@, k, e),
        FilterV::KeyLike(k, e) => ("key_like"@, k, e),
    };
    let head = seq![TokenV::Ident(kw)];
    assert(render_filter(f) == head + render_key(k) + render_expr(e));
    lemma_tokens_at_split(t, i, head + render_key(k), render_expr(e));
    lemma_tokens_at_split(t, i, head, render_key(k));
    assert(t[i] == head[0]);
    assert(t[i + 1] == render_key(k)[0]);
    assert(t[i + 2] == render_key(k)[1]);
    assert(render_key(k).len() == 2);
    assert(crate::parser::sp_parse_key(t, i + 1) == Option::Some((k, i + 3)));
    lemma_rt_expr(t, i + 3, e);
    assert(render_filter(f).len() == 3 + render_expr(e).len());
}

proof fn lemma_rt_filters(t: Seq<TokenV>, i: int, fs: Seq<FilterV>)
    requires
        forall|n: int| 0 <= n < fs.len() ==> crate::policy::wf_filter(#[trigger] fs[n]),
        tokens_at(t, i, render_filters(fs)),
        i + render_filters(fs).len() < t.len() ==> (!(t[i + render_filters(fs).len()] is Dot)
            && t[i + render_filters(fs).len()] != TokenV::Ident("where"@)),
    ensures
        crate::parser::sp_parse_filters(t, i) == Option::Some(
            (fs, i + render_filters(fs).len()),
        ),
    decreases fs.len(),
{
    lemma_keywords_distinct();
    if fs.len() == 0 {
        assert(render_filters(fs).len() == 0);
        if i < t.len() {
            assert(t[i] != TokenV::Ident("where"@));
        }
    } else {
        let head = seq![TokenV::Ident("where"@)];
        let rf = render_filter(fs[0]);
        let rest = render_filters(fs.drop_first());
        assert(render_filters(fs) == head + rf + rest);
        lemma_tokens_at_split(t, i, head + rf, rest);
        lemma_tokens_at_split(t, i, head, rf);
        assert(t[i] == head[0]);
        let j = i + 1 + rf.len();
        if j < t.len() {
            if rest.len() == 0 {
            } else {
                assert(t[j] == rest[0]);
                assert(rest[0] == TokenV::Ident("where"@));
            }
        }
        lemma_rt_filter(t, i + 1, fs[0]);
        lemma_rt_filters(t, j, fs.drop_first());
        assert(seq![fs[0]] + fs.drop_first() =~= fs);
        assert(render_filters(fs).len() == 1 + rf.len() + rest.len());
    }
}

proof fn lemma_rt_fields_tail(t: Seq<TokenV>, i: int, fields: Seq<Seq<char>>)
    requires
        tokens_at(t, i, render_fields_tail(fields) + seq![TokenV::RBracket]),
    ensures
        crate::parser::sp_fields_tail(t, i) == Option::Some(
            (fields, i + render_fields_tail(fields).len() + 1),
        ),
    decreases fields.len(),
{
    if fields.len() == 0 {
        assert(render_fields_tail(fields).len() == 0);
        assert(t[i] == (render_fields_tail(fields) + seq![TokenV::RBracket])[0]);
        assert(t[i] == TokenV::RBracket);
    } else {
        let head = seq![TokenV::Comma, TokenV::LitStr(fields[0])];
        let rest = render_fields_tail(fields.drop_first());
        assert(render_fields_tail(fields) + seq![TokenV::RBracket] == head + (rest + seq![
            TokenV::RBracket,
        ]));
        lemma_tokens_at_split(t, i, head, rest + seq![TokenV::RBracket]);
        assert(t[i] == head[0]);
        assert(t[i + 1] == head[1]);
        lemma_rt_fields_tail(t, i + 2, fields.drop_first());
        assert(seq![t[i + 1]->LitStr_0] + fields.drop_first() =~= fields);
        assert(render_fields_tail(fields).len() == 2 + rest.len());
    }
}

proof fn lemma_rt_fields(t: Seq<TokenV>, i: int, fields: Seq<Seq<char>>)
    requires
        tokens_at(t, i, render_fields(fields) + seq![TokenV::RBracket]),
    ensures
        crate::parser::sp_parse_fields(t, i) == Option::Some(
            (fields, i + render_fields(fields).len() + 1),
        ),
{
    if fields.len() == 0 {
        assert(render_fields(fields).len() == 0);
        assert(t[i] == (render_fields(fields) + seq![TokenV::RBracket])[0]);
        assert(t[i] == TokenV::RBracket);
    } else {
        let head = seq![TokenV::LitStr(fields[0])];
        let rest = render_fields_tail(fields.drop_first());
        assert(render_fields(fields) + seq![TokenV::RBracket] == head + (rest + seq![
            TokenV::RBracket,
        ]));
        lemma_tokens_at_split(t, i, head, rest + seq![TokenV::RBracket]);
        assert(t[i] == head[0]);
        lemma_rt_fields_tail(t, i + 1, fields.drop_first());
        assert(seq![t[i]->LitStr_0] + fields.drop_first() =~= fields);
        assert(render_fields(fields).len() == 1 + rest.len());
    }
}

proof fn lemma_rt_atom(t: Seq<TokenV>, i: int, a: PolicyAtomV)
    requires
        crate::policy::wf_atom(a),
        tokens_at(t, i, render_atom(a)),
        i + render_atom(a).len() < t.len() ==> (!(t[i + render_atom(a).len()] is Dot) && t[i
            + render_atom(a).len()] != TokenV::Ident("where"@) && t[i + render_atom(
            a,
        ).len()] != TokenV::Ident("with"@)),
    ensures
        crate::parser::sp_parse_atom(t, i) == Option::Some((a, i + render_atom(a).len())),
{
    lemma_keywords_distinct();
    let head = seq![TokenV::Ident("allow"@), render_action(a.action), TokenV::Ident("on"@)];
    let res = render_resource(a.resource);
    let fil = render_filters(a.filters);
    let att = render_attrs(a.attributes);
    assert(render_atom(a) == head + res + fil + att);
    lemma_tokens_at_split(t, i, head + res + fil, att);
    lemma_tokens_at_split(t, i, head + res, fil);
    lemma_tokens_at_split(t, i, head, res);
    assert(t[i] == head[0]);
    assert(t[i + 1] == head[1]);
    assert(t[i + 2] == head[2]);
    assert(res.len() == 2);
    assert(t[i + 3] == res[0]);
    assert(t[i + 4] == res[1]);
    assert(crate::parser::sp_parse_action(t, i + 1) == Option::Some((a.action, i + 2)));
    assert(crate::parser::sp_parse_resource(t, i + 3) == Option::Some((a.resource, i + 5)));
    let p = i + 5;
    let q = p + fil.len();
    // The token after the filters, if any, is never `where`, and never
    // a dot: it is the `with` of the attribute clause, or whatever
    // follows the atom.
    if q < t.len() {
        match a.attributes {
            Option::Some(fields) => {
                assert(t[q] == att[0]);
            },
            Option::None => {
                assert(att.len() == 0);
            },
        }
    }
    lemma_rt_filters(t, p, a.filters);
    match a.attributes {
        Option::Some(fields) => {
            let ahead = seq![
                TokenV::Ident("with"@),
                TokenV::Ident("attributes"@),
                TokenV::LBracket,
            ];
            assert(att == ahead + (render_fields(fields) + seq![TokenV::RBracket]));
            lemma_tokens_at_split(t, q, ahead, render_fields(fields) + seq![TokenV::RBracket]);
            assert(t[q] == ahead[0]);
            assert(t[q + 1] == ahead[1]);
            assert(t[q + 2] == ahead[2]);
            lemma_rt_fields(t, q + 3, fields);
            let r = q + 3 + render_fields(fields).len() + 1;
            assert(r == i + render_atom(a).len());
            let built = crate::parser::sp_parse_atom(t, i);
            assert(built == Option::Some(
                (
                    crate::policy::PolicyAtomV {
                        action: a.action,
                        resource: a.resource,
                        filters: a.filters,
                        attributes: Option::Some(fields),
                    },
                    r,
                ),
            ));
            assert(crate::policy::PolicyAtomV {
                action: a.action,
                resource: a.resource,
                filters: a.filters,
                attributes: Option::Some(fields),
            } =~= a);
        },
        Option::None => {
            assert(att.len() == 0);
            assert(q == i + render_atom(a).len());
            if q < t.len() {
                assert(t[q] != TokenV::Ident("with"@));
            }
            assert(crate::policy::PolicyAtomV {
                action: a.action,
                resource: a.resource,
                filters: a.filters,
                attributes: Option::None,
            } =~= a);
        },
    }
}

proof fn lemma_rt_atoms(t: Seq<TokenV>, i: int, atoms: Seq<PolicyAtomV>)
    requires
        forall|n: int| 0 <= n < atoms.len() ==> crate::policy::wf_atom(#[trigger] atoms[n]),
        tokens_at(t, i, render_atoms(atoms)),
        i + render_atoms(atoms).len() == t.len(),
    ensures
        crate::parser::sp_parse_atoms(t, i) == (atoms, t.len() as int),
    decreases atoms.len(),
{
    lemma_keywords_distinct();
    if atoms.len() == 0 {
        assert(render_atoms(atoms).len() == 0);
        assert(i == t.len());
        assert(crate::parser::sp_parse_atom(t, i) is None);
    } else {
        let ra = render_atom(atoms[0]);
        let rest = render_atoms(atoms.drop_first());
        assert(render_atoms(atoms) == ra + rest);
        lemma_tokens_at_split(t, i, ra, rest);
        let j = i + ra.len();
        if j < t.len() {
            assert(rest.len() > 0);
            assert(atoms.drop_first().len() > 0);
            assert(rest == render_atom(atoms.drop_first()[0]) + render_atoms(
                atoms.drop_first().drop_first(),
            ));
            assert(rest[0] == render_atom(atoms.drop_first()[0])[0]);
            lemma_render_atom_first(atoms.drop_first()[0]);
            assert(t[j] == TokenV::Ident("allow"@));
        }
        lemma_rt_atom(t, i, atoms[0]);
        lemma_render_atom_first(atoms[0]);
        assert(ra.len() >= 1);
        lemma_rt_atoms(t, j, atoms.drop_first());
        assert(seq![atoms[0]] + atoms.drop_first() =~= atoms);
    }
}

/// The first token of a rendered atom is the keyword `allow`.
proof fn lemma_render_atom_first(a: PolicyAtomV)
    ensures
        render_atom(a).len() >= 5,
        render_atom(a)[0] == TokenV::Ident("allow"@),
{
    let head = seq![TokenV::Ident("allow"@), render_action(a.action), TokenV::Ident("on"@)];
    let res = render_resource(a.resource);
    assert(render_atom(a) == head + res + render_filters(a.filters) + render_attrs(
        a.attributes,
    ));
    assert(res.len() == 2);
    assert(render_atom(a)[0] == head[0]);
}

/// Round trip: for every policy that satisfies the structural
/// invariant, parsing the canonical rendering returns exactly that
/// policy.
pub proof fn lemma_parse_render_round_trip(p: PolicyV)
    requires
        crate::policy::wf_policy(p),
    ensures
        crate::parser::sp_parse_policy(render_policy(p)) == Option::Some(p),
{
    let t = render_policy(p);
    assert(tokens_at(t, 0, render_atoms(atoms_of(p))));
    match p {
        PolicyV::Atom(a) => {
            assert forall|n: int| 0 <= n < atoms_of(p).len() implies crate::policy::wf_atom(
                #[trigger] atoms_of(p)[n],
            ) by {
                assert(atoms_of(p)[n] == a);
            }
        },
        PolicyV::Composite(atoms) => {},
    }
    lemma_rt_atoms(t, 0, atoms_of(p));
    assert(atoms_of(p).len() >= 1);
    if crate::parser::sp_parse_atom(t, 0) is None {
        assert(crate::parser::sp_parse_atoms(t, 0).0 =~= Seq::<PolicyAtomV>::empty());
        assert(false);
    }
    match p {
        PolicyV::Atom(a) => {
            assert(atoms_of(p).len() == 1);
            assert(atoms_of(p)[0] == a);
        },
        PolicyV::Composite(atoms) => {
            assert(atoms_of(p).len() != 1);
        },
    }
}


// ---------------------------------------------------------------------
// Round trip through text: the canonical tokens of a policy whose
// names fit the token alphabet read back from their rendered text.
// ---------------------------------------------------------------------

/// The names of an expression fit the token alphabet: every variable
/// segment is identifier-shaped and every literal is free of quotes and
/// backslashes.
pub open spec fn text_renderable_expr(e: StringExprV) -> bool
    decreases e,
{
    match e {
        StringExprV::Literal(s) => crate::token::wf_token(TokenV::LitStr(s)),
        StringExprV::Variable(v) => forall|k: int|
            0 <= k < v.len() ==> crate::token::wf_token(TokenV::Ident(#[trigger] v[k])),
        StringExprV::Concat(l, r) => text_renderable_expr(*l) && text_renderable_expr(*r),
    }
}

pub open spec fn text_renderable_filter(f: FilterV) -> bool {
    match f {
        FilterV::KeyEquals(_, e) => text_renderable_expr(e),
        FilterV::KeyLike(_, e) => text_renderable_expr(e),
    }
}

/// The names of an atom fit the token alphabet: the table name and
/// every attribute name are quote- and backslash-free, and every filter
/// is renderable.
pub open spec fn text_renderable_atom(a: PolicyAtomV) -> bool {
    &&& match a.resource {
        ResourceV::Table(name) => crate::token::wf_token(TokenV::LitStr(name)),
    }
    &&& forall|k: int| 0 <= k < a.filters.len() ==> text_renderable_filter(
        #[trigger] a.filters[k],
    )
    &&& match a.attributes {
        Option::None => true,
        Option::Some(fields) => forall|k: int|
            0 <= k < fields.len() ==> crate::token::wf_token(TokenV::LitStr(
                #[trigger] fields[k],
            )),
    }
}

/// The names of a policy fit the token alphabet.
pub open spec fn text_renderable_policy(p: PolicyV) -> bool {
    forall|k: int| 0 <= k < atoms_of(p).len() ==> text_renderable_atom(
        #[trigger] atoms_of(p)[k],
    )
}

/// The grammar's keywords are identifier-shaped tokens.
proof fn lemma_keyword_tokens_wf()
    ensures
        crate::token::wf_token(TokenV::Ident("allow"@)),
        crate::token::wf_token(TokenV::Ident("on"@)),
        crate::token::wf_token(TokenV::Ident("table"@)),
        crate::token::wf_token(TokenV::Ident("where"@)),
        crate::token::wf_token(TokenV::Ident("with"@)),
        crate::token::wf_token(TokenV::Ident("attributes"@)),
        crate::token::wf_token(TokenV::Ident("concat"@)),
        crate::token::wf_token(TokenV::Ident("create"@)),
        crate::token::wf_token(TokenV::Ident("read"@)),
        crate::token::wf_token(TokenV::Ident("update"@)),
        crate::token::wf_token(TokenV::Ident("delete"@)),
        crate::token::wf_token(TokenV::Ident("key_equals"@)),
        crate::token::wf_token(TokenV::Ident("key_like"@)),
        crate::token::wf_token(TokenV::Ident("pk"@)),
        crate::token::wf_token(TokenV::Ident("sk"@)),
{
    reveal_strlit("allow");
    reveal_strlit("on");
    reveal_strlit("table");
    reveal_strlit("where");
    reveal_strlit("with");
    reveal_strlit("attributes");
    reveal_strlit("concat");
    reveal_strlit("create");
    reveal_strlit("read");
    reveal_strlit("update");
    reveal_strlit("delete");
    reveal_strlit("key_equals");
    reveal_strlit("key_like");
    reveal_strlit("pk");
    reveal_strlit("sk");
}

proof fn lemma_render_var_tail_tokens_wf(segments: Seq<Seq<char>>)
    requires
        forall|k: int| 0 <= k < segments.len() ==> crate::token::wf_token(TokenV::Ident(
            #[trigger] segments[k],
        )),
    ensures
        crate::token::all_wf_tokens(render_var_tail(segments)),
    decreases segments.len(),
{
    if segments.len() == 0 {
    } else {
        assert forall|k: int| 0 <= k < segments.drop_first().len() implies crate::token::wf_token(
            TokenV::Ident(#[trigger] segments.drop_first()[k]),
        ) by {
            assert(segments.drop_first()[k] == segments[k + 1]);
        }
        lemma_render_var_tail_tokens_wf(segments.drop_first());
        assert(crate::token::all_wf_tokens(seq![TokenV::Dot, TokenV::Ident(segments[0])]));
        crate::token::lemma_all_wf_tokens_concat(
            seq![TokenV::Dot, TokenV::Ident(segments[0])],
            render_var_tail(segments.drop_first()),
        );
    }
}

proof fn lemma_render_expr_tokens_wf(e: StringExprV)
    requires
        crate::policy::wf_string_expr(e),
        text_renderable_expr(e),
    ensures
        crate::token::all_wf_tokens(render_expr(e)),
    decreases e,
{
    lemma_keyword_tokens_wf();
    match e {
        StringExprV::Literal(s) => {
            assert(crate::token::all_wf_tokens(seq![TokenV::LitStr(s)]));
        },
        StringExprV::Variable(v) => {
            assert forall|k: int| 0 <= k < v.drop_first().len() implies crate::token::wf_token(
                TokenV::Ident(#[trigger] v.drop_first()[k]),
            ) by {
                assert(v.drop_first()[k] == v[k + 1]);
            }
            lemma_render_var_tail_tokens_wf(v.drop_first());
            assert(crate::token::wf_token(TokenV::Ident(v[0])));
            assert(crate::token::all_wf_tokens(seq![TokenV::Dollar, TokenV::Ident(v[0])]));
            crate::token::lemma_all_wf_tokens_concat(
                seq![TokenV::Dollar, TokenV::Ident(v[0])],
                render_var_tail(v.drop_first()),
            );
        },
        StringExprV::Concat(l, r) => {
            lemma_render_expr_tokens_wf(*l);
            lemma_render_expr_tokens_wf(*r);
            let head = seq![TokenV::Ident("concat"@), TokenV::LParen];
            assert(crate::token::all_wf_tokens(head));
            crate::token::lemma_all_wf_tokens_concat(head, render_expr(*l));
            crate::token::lemma_all_wf_tokens_concat(head + render_expr(*l), seq![
                TokenV::Comma,
            ]);
            crate::token::lemma_all_wf_tokens_concat(
                head + render_expr(*l) + seq![TokenV::Comma],
                render_expr(*r),
            );
            crate::token::lemma_all_wf_tokens_concat(
                head + render_expr(*l) + seq![TokenV::Comma] + render_expr(*r),
                seq![TokenV::RParen],
            );
        },
    }
}

proof fn lemma_render_filters_tokens_wf(fs: Seq<FilterV>)
    requires
        forall|k: int| 0 <= k < fs.len() ==> crate::policy::wf_filter(#[trigger] fs[k]),
        forall|k: int| 0 <= k < fs.len() ==> text_renderable_filter(#[trigger] fs[k]),
    ensures
        crate::token::all_wf_tokens(render_filters(fs)),
    decreases fs.len(),
{
    lemma_keyword_tokens_wf();
    if fs.len() == 0 {
    } else {
        let (kw, k, e) = match fs[0] {
            FilterV::KeyEquals(k, e) => ("key_equals"@, k, e),
            FilterV::KeyLike(k, e) => ("key_like"@, k, e),
        };
        lemma_render_expr_tokens_wf(e);
        assert(crate::token::all_wf_tokens(seq![TokenV::Ident("where"@), TokenV::Ident(kw)]));
        assert(crate::token::all_wf_tokens(render_key(k)));
        assert(render_filters(fs) == seq![TokenV::Ident("where"@)] + render_filter(fs[0])
            + render_filters(fs.drop_first()));
        assert(render_filter(fs[0]) == seq![TokenV::Ident(kw)] + render_key(k) + render_expr(
            e,
        ));
        assert(crate::token::all_wf_tokens(seq![TokenV::Ident(kw)]));
        crate::token::lemma_all_wf_tokens_concat(seq![TokenV::Ident(kw)], render_key(k));
        crate::token::lemma_all_wf_tokens_concat(
            seq![TokenV::Ident(kw)] + render_key(k),
            render_expr(e),
        );
        assert(crate::token::all_wf_tokens(seq![TokenV::Ident("where"@)]));
        crate::token::lemma_all_wf_tokens_concat(
            seq![TokenV::Ident("where"@)],
            render_filter(fs[0]),
        );
        assert forall|n: int| 0 <= n < fs.drop_first().len() implies crate::policy::wf_filter(
            #[trigger] fs.drop_first()[n],
        ) && text_renderable_filter(fs.drop_first()[n]) by {
            assert(fs.drop_first()[n] == fs[n + 1]);
        }
        lemma_render_filters_tokens_wf(fs.drop_first());
        crate::token::lemma_all_wf_tokens_concat(
            seq![TokenV::Ident("where"@)] + render_filter(fs[0]),
            render_filters(fs.drop_first()),
        );
    }
}

proof fn lemma_render_fields_tail_tokens_wf(fields: Seq<Seq<char>>)
    requires
        forall|k: int| 0 <= k < fields.len() ==> crate::token::wf_token(TokenV::LitStr(
            #[trigger] fields[k],
        )),
    ensures
        crate::token::all_wf_tokens(render_fields_tail(fields)),
    decreases fields.len(),
{
    if fields.len() == 0 {
    } else {
        assert forall|k: int| 0 <= k < fields.drop_first().len() implies crate::token::wf_token(
            TokenV::LitStr(#[trigger] fields.drop_first()[k]),
        ) by {
            assert(fields.drop_first()[k] == fields[k + 1]);
        }
        lemma_render_fields_tail_tokens_wf(fields.drop_first());
        assert(crate::token::all_wf_tokens(seq![TokenV::Comma, TokenV::LitStr(fields[0])]));
        crate::token::lemma_all_wf_tokens_concat(
            seq![TokenV::Comma, TokenV::LitStr(fields[0])],
            render_fields_tail(fields.drop_first()),
        );
    }
}

proof fn lemma_render_attrs_tokens_wf(attrs: Option<Seq<Seq<char>>>)
    requires
        match attrs {
            Option::None => true,
            Option::Some(fields) => forall|k: int|
                0 <= k < fields.len() ==> crate::token::wf_token(TokenV::LitStr(
                    #[trigger] fields[k],
                )),
        },
    ensures
        crate::token::all_wf_tokens(render_attrs(attrs)),
{
    lemma_keyword_tokens_wf();
    match attrs {
        Option::None => {},
        Option::Some(fields) => {
            let head = seq![
                TokenV::Ident("with"@),
                TokenV::Ident("attributes"@),
                TokenV::LBracket,
            ];
            assert(crate::token::all_wf_tokens(head));
            if fields.len() == 0 {
                assert(crate::token::all_wf_tokens(render_fields(fields)));
            } else {
                assert forall|k: int| 0 <= k < fields.drop_first().len() implies
                    crate::token::wf_token(TokenV::LitStr(
                    #[trigger] fields.drop_first()[k],
                )) by {
                    assert(fields.drop_first()[k] == fields[k + 1]);
                }
                lemma_render_fields_tail_tokens_wf(fields.drop_first());
                assert(crate::token::all_wf_tokens(seq![TokenV::LitStr(fields[0])]));
                crate::token::lemma_all_wf_tokens_concat(
                    seq![TokenV::LitStr(fields[0])],
                    render_fields_tail(fields.drop_first()),
                );
            }
            crate::token::lemma_all_wf_tokens_concat(head, render_fields(fields));
            crate::token::lemma_all_wf_tokens_concat(
                head + render_fields(fields),
                seq![TokenV::RBracket],
            );
        },
    }
}

proof fn lemma_render_atom_tokens_wf(a: PolicyAtomV)
    requires
        crate::policy::wf_atom(a),
        text_renderable_atom(a),
    ensures
        crate::token::all_wf_tokens(render_atom(a)),
{
    lemma_keyword_tokens_wf();
    let head = seq![TokenV::Ident("allow"@), render_action(a.action), TokenV::Ident("on"@)];
    assert(crate::token::wf_token(render_action(a.action)));
    assert(crate::token::all_wf_tokens(head));
    assert(crate::token::all_wf_tokens(render_resource(a.resource)));
    lemma_render_filters_tokens_wf(a.filters);
    lemma_render_attrs_tokens_wf(a.attributes);
    crate::token::lemma_all_wf_tokens_concat(head, render_resource(a.resource));
    crate::token::lemma_all_wf_tokens_concat(
        head + render_resource(a.resource),
        render_filters(a.filters),
    );
    crate::token::lemma_all_wf_tokens_concat(
        head + render_resource(a.resource) + render_filters(a.filters),
        render_attrs(a.attributes),
    );
}

proof fn lemma_render_atoms_tokens_wf(atoms: Seq<PolicyAtomV>)
    requires
        forall|k: int| 0 <= k < atoms.len() ==> crate::policy::wf_atom(#[trigger] atoms[k]),
        forall|k: int| 0 <= k < atoms.len() ==> text_renderable_atom(#[trigger] atoms[k]),
    ensures
        crate::token::all_wf_tokens(render_atoms(atoms)),
    decreases atoms.len(),
{
    if atoms.len() == 0 {
    } else {
        lemma_render_atom_tokens_wf(atoms[0]);
        assert forall|k: int| 0 <= k < atoms.drop_first().len() implies crate::policy::wf_atom(
            #[trigger] atoms.drop_first()[k],
        ) && text_renderable_atom(atoms.drop_first()[k]) by {
            assert(atoms.drop_first()[k] == atoms[k + 1]);
        }
        lemma_render_atoms_tokens_wf(atoms.drop_first());
        crate::token::lemma_all_wf_tokens_concat(
            render_atom(atoms[0]),
            render_atoms(atoms.drop_first()),
        );
    }
}

/// Round trip through text: for a well-formed policy whose names fit
/// the token alphabet, writing the canonical tokens out as text, lexing
/// that text, and parsing the tokens returns exactly that policy.
pub proof fn lemma_parse_render_text_round_trip(p: PolicyV)
    requires
        crate::policy::wf_policy(p),
        text_renderable_policy(p),
    ensures
        crate::token::sp_tokenize(crate::token::text_of_tokens(render_policy(p)))
            == Option::Some(render_policy(p)),
        crate::parser::sp_parse_policy(render_policy(p)) == Option::Some(p),
{
    match p {
        PolicyV::Atom(a) => {
            assert forall|n: int| 0 <= n < atoms_of(p).len() implies crate::policy::wf_atom(
                #[trigger] atoms_of(p)[n],
            ) && text_renderable_atom(atoms_of(p)[n]) by {
                assert(atoms_of(p)[n] == a);
                assert(text_renderable_atom(atoms_of(p)[n]));
            }
        },
        PolicyV::Composite(atoms) => {},
    }
    lemma_render_atoms_tokens_wf(atoms_of(p));
    crate::token::lemma_tokenize_render_text(render_policy(p));
    lemma_parse_render_round_trip(p);
}

} // verus!
