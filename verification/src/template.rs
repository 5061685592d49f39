//! Placeholder expansion for heartbeat URLs and header values: plain literal
//! replacement of `{name}` tokens, the fixed time and latency placeholders
//! first, then each custom or metric-derived placeholder once.

use crate::strings::{lemma_no_char_no_occurrence, lemma_replace_absent, replace_all, replace_seq};
use vstd::prelude::*;

verus! {

/// The view of a list of substitution pairs.
pub open spec fn pairs_view(v: Seq<(String, String)>) -> Seq<(Seq<char>, Seq<char>)> {
    v.map_values(|p: (String, String)| (p.0@, p.1@))
}

/// Apply the substitutions left to right, each one a whole-text literal
/// replacement of its pattern by its value.
pub open spec fn expand_pairs(t: Seq<char>, subs: Seq<(Seq<char>, Seq<char>)>) -> Seq<char>
    decreases subs.len(),
{
    if subs.len() == 0 {
        t
    } else {
        expand_pairs(replace_seq(t, subs[0].0, subs[0].1), subs.skip(1))
    }
}

/// Expand a template by the given substitution pairs, in order.
pub fn apply_pairs(t: &str, subs: &Vec<(String, String)>) -> (r: String)
    ensures
        r@ == expand_pairs(t@, pairs_view(subs@)),
{
    let mut cur = String::from_str(t);
    let mut i: usize = 0;
    proof {
        assert(pairs_view(subs@).skip(0) =~= pairs_view(subs@));
    }
    while i < subs.len()
        invariant
            i <= subs.len(),
            expand_pairs(t@, pairs_view(subs@)) == expand_pairs(
                cur@,
                pairs_view(subs@).skip(i as int),
            ),
        decreases subs.len() - i,
    {
        let next = replace_all(cur.as_str(), subs[i].0.as_str(), subs[i].1.as_str());
        proof {
            let rest = pairs_view(subs@).skip(i as int);
            assert(rest[0] == (subs@[i as int].0@, subs@[i as int].1@));
            assert(rest.skip(1) =~= pairs_view(subs@).skip(i + 1));
        }
        cur = next;
        i = i + 1;
    }
    cur
}

/// A text with no `{` left is a fixed point of expansion, as long as every
/// pattern holds a `{` (placeholder patterns always do).
pub proof fn lemma_expand_fixed(t: Seq<char>, subs: Seq<(Seq<char>, Seq<char>)>)
    requires
        !t.contains('{'),
        forall|k: int| 0 <= k < subs.len() ==> (#[trigger] subs[k].0).contains('{'),
    ensures
        expand_pairs(t, subs) == t,
    decreases subs.len(),
{
    if subs.len() > 0 {
        lemma_no_char_no_occurrence(t, subs[0].0, '{');
        lemma_replace_absent(t, subs[0].0, subs[0].1);
        assert(forall|k: int|
            0 <= k < subs.skip(1).len() ==> (#[trigger] subs.skip(1)[k].0).contains('{'));
        lemma_expand_fixed(t, subs.skip(1));
    }
}

/// Expansion is idempotent: once a template has been expanded and no `{`
/// remains in the result, expanding again with the same inputs changes
/// nothing. (When a substituted value reintroduces a brace, a second pass can
/// differ; such inputs are left out here.)
pub proof fn lemma_expand_idempotent(t: Seq<char>, subs: Seq<(Seq<char>, Seq<char>)>)
    requires
        forall|k: int| 0 <= k < subs.len() ==> (#[trigger] subs[k].0).contains('{'),
        !expand_pairs(t, subs).contains('{'),
    ensures
        expand_pairs(expand_pairs(t, subs), subs) == expand_pairs(t, subs),
{
    lemma_expand_fixed(expand_pairs(t, subs), subs);
}

} // verus!
