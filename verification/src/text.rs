//! Joining pieces of text with a separator, as a specification function
//! and as a verified executable function.

use vstd::prelude::*;
use vstd::string::StringExecFns;

use crate::policy::string_views;

verus! {

/// The parts joined by the separator: empty for no parts, and no
/// leading or trailing separator otherwise.
pub open spec fn join_with(parts: Seq<Seq<char>>, sep: Seq<char>) -> Seq<char>
    decreases parts.len(),
{
    if parts.len() == 0 {
        Seq::empty()
    } else if parts.len() == 1 {
        parts[0]
    } else {
        parts[0] + sep + join_with(parts.drop_first(), sep)
    }
}

/// Joining one more part appends one separator and that part.
pub proof fn lemma_join_with_snoc(parts: Seq<Seq<char>>, sep: Seq<char>)
    requires
        parts.len() >= 2,
    ensures
        join_with(parts, sep) =~= join_with(parts.drop_last(), sep) + sep + parts.last(),
    decreases parts.len(),
{
    if parts.len() == 2 {
        assert(parts.drop_first().len() == 1);
        assert(parts.drop_last().len() == 1);
        assert(parts.drop_first()[0] == parts[1]);
        assert(parts.drop_last()[0] == parts[0]);
        assert(join_with(parts.drop_first(), sep) == parts[1]);
        assert(join_with(parts.drop_last(), sep) == parts[0]);
        assert(parts.last() == parts[1]);
    } else {
        let d = parts.drop_first();
        lemma_join_with_snoc(d, sep);
        assert(d.drop_last() =~= parts.drop_last().drop_first());
        assert(parts.drop_last()[0] == parts[0]);
        assert(parts.drop_last().len() >= 2);
        assert(d.last() == parts.last());
        assert(join_with(parts, sep) =~= ((parts[0] + sep + join_with(d.drop_last(), sep))
            + sep) + parts.last());
        assert(join_with(parts.drop_last(), sep) =~= parts[0] + sep + join_with(
            d.drop_last(),
            sep,
        ));
    }
}

/// The parts joined by the separator, executable.
pub fn join_strings(parts: &Vec<String>, sep: &str) -> (r: String)
    ensures
        r@ == join_with(string_views(parts@), sep@),
{
    let ghost pv = string_views(parts@);
    let mut out = String::new();
    let mut i: usize = 0;
    proof {
        assert(join_with(pv.subrange(0, 0), sep@) =~= Seq::<char>::empty());
        assert(out@ =~= join_with(pv.subrange(0, 0), sep@));
    }
    while i < parts.len()
        invariant
            i <= parts@.len(),
            pv == string_views(parts@),
            out@ == join_with(pv.subrange(0, i as int), sep@),
        decreases parts@.len() - i,
    {
        if i > 0 {
            out.append(sep);
        }
        out.append(parts[i].as_str());
        i = i + 1;
        proof {
            if i == 1 {
                assert(pv.subrange(0, 1) =~= seq![pv[0]]);
                assert(pv[0] == parts@[0]@);
                assert(join_with(pv.subrange(0, 1), sep@) == pv[0]);
                assert(out@ =~= join_with(pv.subrange(0, i as int), sep@));
            } else {
                lemma_join_with_snoc(pv.subrange(0, i as int), sep@);
                assert(pv.subrange(0, i as int).drop_last() =~= pv.subrange(0, i - 1 as int));
                assert(pv.subrange(0, i as int).last() == parts@[i - 1]@);
                assert(out@ =~= join_with(pv.subrange(0, i as int), sep@));
            }
        }
    }
    proof {
        assert(pv.subrange(0, parts@.len() as int) =~= pv);
    }
    out
}

} // verus!
