//! The registry: the per-function store of declared policies. One entry
//! per function identifier; a new declaration for a known identifier
//! replaces the old entry in place and never duplicates it, and the
//! order of the other entries is preserved.
//!
//! The registry itself is an in-memory value. Reading it from and
//! writing it to a backing store is the caller's concern; a caller that
//! cannot read its store starts from `new` (nothing yet declared).

use vstd::prelude::*;

use crate::policy::Policy;
use crate::policy::PolicyV;
use crate::token::str_eq;

verus! {

/// One registry record: the protected function and its policy.
pub struct RegistryEntry {
    pub function_id: String,
    pub policy: Policy,
}

impl View for RegistryEntry {
    type V = (Seq<char>, PolicyV);

    open spec fn view(&self) -> (Seq<char>, PolicyV) {
        (self.function_id@, self.policy@)
    }
}

/// The views of a sequence of entries.
pub open spec fn entry_views(s: Seq<RegistryEntry>) -> Seq<(Seq<char>, PolicyV)> {
    s.map_values(|e: RegistryEntry| e@)
}

/// The registry invariant: every function identifier occurs at most
/// once.
pub open spec fn wf_registry(s: Seq<(Seq<char>, PolicyV)>) -> bool {
    forall|i: int, j: int| 0 <= i < j < s.len() ==> (#[trigger] s[i]).0 != (#[trigger] s[j]).0
}

/// The upsert on the mathematical registry: replace in place where the
/// key exists, append where it does not.
pub open spec fn upsert_spec(
    s: Seq<(Seq<char>, PolicyV)>,
    k: Seq<char>,
    v: PolicyV,
) -> Seq<(Seq<char>, PolicyV)>
    decreases s.len(),
{
    if s.len() == 0 {
        seq![(k, v)]
    } else if s[0].0 == k {
        seq![(k, v)] + s.drop_first()
    } else {
        seq![s[0]] + upsert_spec(s.drop_first(), k, v)
    }
}

/// The policy stored for a key, if any.
pub open spec fn lookup(s: Seq<(Seq<char>, PolicyV)>, k: Seq<char>) -> Option<PolicyV>
    decreases s.len(),
{
    if s.len() == 0 {
        Option::None
    } else if s[0].0 == k {
        Option::Some(s[0].1)
    } else {
        lookup(s.drop_first(), k)
    }
}

/// How many entries carry this key.
pub open spec fn count_key(s: Seq<(Seq<char>, PolicyV)>, k: Seq<char>) -> nat
    decreases s.len(),
{
    if s.len() == 0 {
        0
    } else {
        (if s[0].0 == k {
            1nat
        } else {
            0nat
        }) + count_key(s.drop_first(), k)
    }
}

/// The per-function policy store.
pub struct Registry {
    entries: Vec<RegistryEntry>,
}

impl View for Registry {
    type V = Seq<(Seq<char>, PolicyV)>;

    closed spec fn view(&self) -> Seq<(Seq<char>, PolicyV)> {
        entry_views(self.entries@)
    }
}

impl Registry {
    /// The empty registry: nothing yet declared.
    pub fn new() -> (r: Registry)
        ensures
            r@ == Seq::<(Seq<char>, PolicyV)>::empty(),
            wf_registry(r@),
    {
        let r = Registry { entries: Vec::new() };
        proof {
            assert(r@ =~= Seq::<(Seq<char>, PolicyV)>::empty());
        }
        r
    }

    /// How many functions have a policy.
    pub fn len(&self) -> (r: usize)
        ensures
            r == self@.len(),
    {
        self.entries.len()
    }

    /// The entries, in registry order.
    pub fn entries(&self) -> (r: &Vec<RegistryEntry>)
        ensures
            entry_views(r@) == self@,
    {
        &self.entries
    }

    /// Declares the policy of a function: replaces the existing entry
    /// in place where the function is already known (keeping the order
    /// of the other entries), appends otherwise.
    pub fn upsert(&mut self, function_id: String, policy: Policy)
        requires
            wf_registry(old(self)@),
        ensures
            final(self)@ == upsert_spec(old(self)@, function_id@, policy@),
            wf_registry(final(self)@),
    {
        let ghost s = self@;
        let n = self.entries.len();
        let mut i: usize = 0;
        while i < n
            invariant
                n == self.entries@.len(),
                i <= n,
                s == entry_views(self.entries@),
                s == old(self)@,
                wf_registry(s),
                forall|j: int| 0 <= j < i ==> (#[trigger] s[j]).0 != function_id@,
            decreases n - i,
        {
            if str_eq(self.entries[i].function_id.as_str(), function_id.as_str()) {
                let entry = RegistryEntry { function_id, policy };
                self.entries[i] = entry;
                proof {
                    assert(entry_views(self.entries@) =~= s.update(
                        i as int,
                        (function_id@, policy@),
                    ));
                    lemma_upsert_spec_found(s, function_id@, policy@, i as int);
                    lemma_upsert_preserves_wf(s, function_id@, policy@);
                }
                return ;
            }
            i = i + 1;
        }
        let entry = RegistryEntry { function_id, policy };
        self.entries.push(entry);
        proof {
            assert(entry_views(self.entries@) =~= s.push((function_id@, policy@)));
            lemma_upsert_spec_missing(s, function_id@, policy@);
            lemma_upsert_preserves_wf(s, function_id@, policy@);
        }
    }

    /// The policy declared for this function, if any.
    pub fn get(&self, function_id: &str) -> (r: Option<&Policy>)
        ensures
            match r {
                Option::Some(p) => lookup(self@, function_id@) == Option::Some(p@),
                Option::None => lookup(self@, function_id@) is None,
            },
    {
        let ghost s = self@;
        let n = self.entries.len();
        let mut i: usize = 0;
        proof {
            assert(s.subrange(0, n as int) =~= s);
        }
        while i < n
            invariant
                n == self.entries@.len(),
                i <= n,
                s == entry_views(self.entries@),
                lookup(s, function_id@) == lookup(
                    s.subrange(i as int, n as int),
                    function_id@,
                ),
            decreases n - i,
        {
            let ghost rest = s.subrange(i as int, n as int);
            if str_eq(self.entries[i].function_id.as_str(), function_id) {
                proof {
                    assert(rest[0] == s[i as int]);
                }
                return Option::Some(&self.entries[i].policy);
            }
            i = i + 1;
            proof {
                assert(rest[0] == s[i - 1]);
                assert(rest.drop_first() =~= s.subrange(i as int, n as int));
            }
        }
        proof {
            assert(s.subrange(n as int, n as int).len() == 0);
        }
        Option::None
    }
}

proof fn lemma_upsert_spec_found(s: Seq<(Seq<char>, PolicyV)>, k: Seq<char>, v: PolicyV, i: int)
    requires
        0 <= i < s.len(),
        s[i].0 == k,
        forall|j: int| 0 <= j < i ==> (#[trigger] s[j]).0 != k,
    ensures
        upsert_spec(s, k, v) =~= s.update(i, (k, v)),
    decreases i,
{
    if i == 0 {
        assert(upsert_spec(s, k, v) == seq![(k, v)] + s.drop_first());
        assert(seq![(k, v)] + s.drop_first() =~= s.update(0, (k, v)));
    } else {
        let d = s.drop_first();
        assert(d[i - 1].0 == k);
        assert forall|j: int| 0 <= j < i - 1 implies (#[trigger] d[j]).0 != k by {
            assert(d[j] == s[j + 1]);
        }
        lemma_upsert_spec_found(d, k, v, i - 1);
        assert(upsert_spec(s, k, v) == seq![s[0]] + upsert_spec(d, k, v));
        assert(seq![s[0]] + d.update(i - 1, (k, v)) =~= s.update(i, (k, v)));
    }
}

proof fn lemma_upsert_spec_missing(s: Seq<(Seq<char>, PolicyV)>, k: Seq<char>, v: PolicyV)
    requires
        forall|j: int| 0 <= j < s.len() ==> (#[trigger] s[j]).0 != k,
    ensures
        upsert_spec(s, k, v) =~= s.push((k, v)),
    decreases s.len(),
{
    if s.len() == 0 {
    } else {
        let d = s.drop_first();
        assert forall|j: int| 0 <= j < d.len() implies (#[trigger] d[j]).0 != k by {
            assert(d[j] == s[j + 1]);
        }
        lemma_upsert_spec_missing(d, k, v);
        assert(seq![s[0]] + d.push((k, v)) =~= s.push((k, v)));
    }
}

/// Where no entry carries the key, none is counted.
proof fn lemma_count_key_zero(s: Seq<(Seq<char>, PolicyV)>, k: Seq<char>)
    requires
        forall|j: int| 0 <= j < s.len() ==> (#[trigger] s[j]).0 != k,
    ensures
        count_key(s, k) == 0,
    decreases s.len(),
{
    if s.len() > 0 {
        let d = s.drop_first();
        assert forall|j: int| 0 <= j < d.len() implies (#[trigger] d[j]).0 != k by {
            assert(d[j] == s[j + 1]);
        }
        lemma_count_key_zero(d, k);
    }
}

/// The upsert keeps the registry invariant, leaves exactly one entry
/// for the upserted key, and stores the given policy under it.
pub proof fn lemma_upsert_preserves_wf(s: Seq<(Seq<char>, PolicyV)>, k: Seq<char>, v: PolicyV)
    requires
        wf_registry(s),
    ensures
        wf_registry(upsert_spec(s, k, v)),
        count_key(upsert_spec(s, k, v), k) == 1,
        lookup(upsert_spec(s, k, v), k) == Option::Some(v),
    decreases s.len(),
{
    let u = upsert_spec(s, k, v);
    if s.len() == 0 {
        assert(u == seq![(k, v)]);
        assert(u.drop_first().len() == 0);
        assert(count_key(u.drop_first(), k) == 0);
        assert(u[0].0 == k);
        assert(count_key(u, k) == 1);
    } else if s[0].0 == k {
        let d = s.drop_first();
        assert(u == seq![(k, v)] + d);
        assert forall|j: int| 0 <= j < d.len() implies (#[trigger] d[j]).0 != k by {
            assert(d[j] == s[j + 1]);
            assert(s[0].0 != s[j + 1].0);
        }
        assert(u.drop_first() =~= d);
        lemma_count_key_zero(d, k);
        assert(u[0].0 == k);
        assert(count_key(u, k) == 1);
        assert forall|i: int, j: int| 0 <= i < j < u.len() implies (#[trigger] u[i]).0 != (
        #[trigger] u[j]).0 by {
            if i == 0 {
                assert(u[j] == d[j - 1]);
            } else {
                assert(u[i] == s[i]);
                assert(u[j] == s[j]);
            }
        }
    } else {
        let d = s.drop_first();
        assert forall|i: int, j: int| 0 <= i < j < d.len() implies (#[trigger] d[i]).0 != (
        #[trigger] d[j]).0 by {
            assert(d[i] == s[i + 1]);
            assert(d[j] == s[j + 1]);
        }
        lemma_upsert_preserves_wf(d, k, v);
        assert(u == seq![s[0]] + upsert_spec(d, k, v));
        assert(u.drop_first() =~= upsert_spec(d, k, v));
        assert(u[0] == s[0]);
        assert(count_key(u.drop_first(), k) == 1);
        assert(count_key(u, k) == 1);
        lemma_upsert_key_membership(d, k, v);
        assert forall|i: int, j: int| 0 <= i < j < u.len() implies (#[trigger] u[i]).0 != (
        #[trigger] u[j]).0 by {
            if i == 0 {
                assert(u[j] == upsert_spec(d, k, v)[j - 1]);
            } else {
                assert(u[i] == upsert_spec(d, k, v)[i - 1]);
                assert(u[j] == upsert_spec(d, k, v)[j - 1]);
            }
        }
    }
}

/// Every key of the upserted registry is an old key or the new one.
proof fn lemma_upsert_key_membership(s: Seq<(Seq<char>, PolicyV)>, k: Seq<char>, v: PolicyV)
    ensures
        forall|i: int|
            0 <= i < upsert_spec(s, k, v).len() ==> ((#[trigger] upsert_spec(s, k, v)[i]).0 == k
                || exists|j: int|
                0 <= j < s.len() && (#[trigger] s[j]).0 == upsert_spec(s, k, v)[i].0),
    decreases s.len(),
{
    let u = upsert_spec(s, k, v);
    if s.len() == 0 {
    } else if s[0].0 == k {
        assert forall|i: int| 0 <= i < u.len() implies ((#[trigger] u[i]).0 == k || exists|j: int|
            0 <= j < s.len() && (#[trigger] s[j]).0 == u[i].0) by {
            if i > 0 {
                assert(u[i] == s[i]);
                assert(s[i].0 == u[i].0);
            }
        }
    } else {
        lemma_upsert_key_membership(s.drop_first(), k, v);
        let d = s.drop_first();
        assert forall|i: int| 0 <= i < u.len() implies ((#[trigger] u[i]).0 == k || exists|j: int|
            0 <= j < s.len() && (#[trigger] s[j]).0 == u[i].0) by {
            if i == 0 {
                assert(u[0] == s[0]);
                assert(s[0].0 == u[0].0);
            } else {
                assert(u[i] == upsert_spec(d, k, v)[i - 1]);
                if upsert_spec(d, k, v)[i - 1].0 != k {
                    let j = choose|j: int|
                        0 <= j < d.len() && (#[trigger] d[j]).0 == upsert_spec(d, k, v)[i
                            - 1].0;
                    assert(s[j + 1] == d[j]);
                    assert(s[j + 1].0 == u[i].0);
                }
            }
        }
    }
}

/// Declaring the same policy for the same function twice leaves the
/// registry of one declaration, with exactly one entry for that
/// function: the upsert is idempotent.
pub proof fn lemma_upsert_idempotent(s: Seq<(Seq<char>, PolicyV)>, k: Seq<char>, v: PolicyV)
    requires
        wf_registry(s),
    ensures
        upsert_spec(upsert_spec(s, k, v), k, v) == upsert_spec(s, k, v),
        count_key(upsert_spec(s, k, v), k) == 1,
    decreases s.len(),
{
    lemma_upsert_preserves_wf(s, k, v);
    let u = upsert_spec(s, k, v);
    if s.len() == 0 {
        assert(u == seq![(k, v)]);
        assert(u[0].0 == k);
        assert(upsert_spec(u, k, v) =~= u);
    } else if s[0].0 == k {
        assert(u == seq![(k, v)] + s.drop_first());
        assert(u[0].0 == k);
        assert(u.drop_first() =~= s.drop_first());
        assert(upsert_spec(u, k, v) =~= u);
    } else {
        let d = s.drop_first();
        assert forall|i: int, j: int| 0 <= i < j < d.len() implies (#[trigger] d[i]).0 != (
        #[trigger] d[j]).0 by {
            assert(d[i] == s[i + 1]);
            assert(d[j] == s[j + 1]);
        }
        lemma_upsert_idempotent(d, k, v);
        assert(u == seq![s[0]] + upsert_spec(d, k, v));
        assert(u[0] == s[0]);
        assert(u.drop_first() =~= upsert_spec(d, k, v));
        assert(upsert_spec(u, k, v) =~= seq![u[0]] + upsert_spec(upsert_spec(d, k, v), k, v));
        assert(upsert_spec(u, k, v) =~= u);
    }
}

/// Declaring a second policy for the same function replaces the first
/// and never duplicates the entry: the registry is the one that the
/// second declaration alone would have produced, its size does not
/// grow, and the function maps to the second policy.
pub proof fn lemma_upsert_replaces(
    s: Seq<(Seq<char>, PolicyV)>,
    k: Seq<char>,
    v1: PolicyV,
    v2: PolicyV,
)
    requires
        wf_registry(s),
    ensures
        upsert_spec(upsert_spec(s, k, v1), k, v2) == upsert_spec(s, k, v2),
        upsert_spec(upsert_spec(s, k, v1), k, v2).len() == upsert_spec(s, k, v1).len(),
        count_key(upsert_spec(upsert_spec(s, k, v1), k, v2), k) == 1,
        lookup(upsert_spec(upsert_spec(s, k, v1), k, v2), k) == Option::Some(v2),
    decreases s.len(),
{
    lemma_upsert_preserves_wf(s, k, v1);
    lemma_upsert_preserves_wf(upsert_spec(s, k, v1), k, v2);
    let u1 = upsert_spec(s, k, v1);
    if s.len() == 0 {
        assert(u1 == seq![(k, v1)]);
        assert(u1[0].0 == k);
        assert(u1.drop_first().len() == 0);
        assert(upsert_spec(u1, k, v2) =~= seq![(k, v2)]);
        assert(upsert_spec(s, k, v2) =~= seq![(k, v2)]);
    } else if s[0].0 == k {
        assert(u1 == seq![(k, v1)] + s.drop_first());
        assert(u1[0].0 == k);
        assert(u1.drop_first() =~= s.drop_first());
        assert(upsert_spec(u1, k, v2) =~= seq![(k, v2)] + s.drop_first());
        assert(upsert_spec(s, k, v2) =~= seq![(k, v2)] + s.drop_first());
    } else {
        let d = s.drop_first();
        assert forall|i: int, j: int| 0 <= i < j < d.len() implies (#[trigger] d[i]).0 != (
        #[trigger] d[j]).0 by {
            assert(d[i] == s[i + 1]);
            assert(d[j] == s[j + 1]);
        }
        lemma_upsert_replaces(d, k, v1, v2);
        assert(u1 == seq![s[0]] + upsert_spec(d, k, v1));
        assert(u1[0] == s[0]);
        assert(u1.drop_first() =~= upsert_spec(d, k, v1));
        assert(upsert_spec(u1, k, v2) =~= seq![s[0]] + upsert_spec(upsert_spec(d, k, v1), k, v2));
        assert(upsert_spec(s, k, v2) =~= seq![s[0]] + upsert_spec(d, k, v2));
        lemma_upsert_len(d, k, v1);
        lemma_upsert_len(upsert_spec(d, k, v1), k, v2);
    }
}

/// The size of an upserted registry: unchanged where the key exists,
/// one more where it does not.
pub proof fn lemma_upsert_len(s: Seq<(Seq<char>, PolicyV)>, k: Seq<char>, v: PolicyV)
    ensures
        count_key(s, k) > 0 ==> upsert_spec(s, k, v).len() == s.len(),
        count_key(s, k) == 0 ==> upsert_spec(s, k, v).len() == s.len() + 1,
    decreases s.len(),
{
    if s.len() > 0 && s[0].0 != k {
        lemma_upsert_len(s.drop_first(), k, v);
    }
}

} // verus!
