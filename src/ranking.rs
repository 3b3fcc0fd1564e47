//! Ordering a run: by topic ascending, then score descending, then document
//! identifier descending, so that equal scores are broken the same way everywhere.
use vstd::prelude::*;
use vstd::multiset::Multiset;
use crate::entry::TrecEntry;
use crate::ident::{compare_ids, lex_cmp, lemma_lex_cmp_antisymmetric, lemma_lex_cmp_transitive, lemma_lex_cmp_zero};

verus! {

/// Whether `a` comes strictly before `b` in a run's order.
pub open spec fn precedes(a: TrecEntry, b: TrecEntry) -> bool {
    let t = lex_cmp(a.topic@, b.topic@);
    t < 0 || (t == 0 && (a.score > b.score || (a.score == b.score && lex_cmp(a.docid@, b.docid@) > 0)))
}

/// No entry of `s` comes strictly before the entry just ahead of it.
pub open spec fn run_ordered(s: Seq<TrecEntry>) -> bool {
    forall|i: int| 0 <= i < s.len() - 1 ==> !precedes(#[trigger] s[i + 1], s[i])
}

/// Two entries never each come before the other.
pub proof fn lemma_precedes_asymmetric(a: TrecEntry, b: TrecEntry)
    ensures
        precedes(a, b) ==> !precedes(b, a),
{
    lemma_lex_cmp_antisymmetric(a.topic@, b.topic@);
    lemma_lex_cmp_antisymmetric(a.docid@, b.docid@);
}

/// Not coming before is transitive: if `b` is not before `a` and `c` is
/// not before `b`, then `c` is not before `a`.
pub proof fn lemma_not_before_transitive(a: TrecEntry, b: TrecEntry, c: TrecEntry)
    requires
        !precedes(b, a),
        !precedes(c, b),
    ensures
        !precedes(c, a),
{
    lemma_lex_cmp_antisymmetric(a.topic@, b.topic@);
    lemma_lex_cmp_antisymmetric(b.topic@, c.topic@);
    lemma_lex_cmp_antisymmetric(a.topic@, c.topic@);
    lemma_lex_cmp_antisymmetric(a.docid@, b.docid@);
    lemma_lex_cmp_antisymmetric(b.docid@, c.docid@);
    lemma_lex_cmp_antisymmetric(a.docid@, c.docid@);
    lemma_lex_cmp_zero(a.topic@, b.topic@);
    lemma_lex_cmp_zero(b.topic@, c.topic@);
    lemma_lex_cmp_zero(a.topic@, c.topic@);
    lemma_lex_cmp_transitive(a.topic@, b.topic@, c.topic@);
    if a.topic@ == b.topic@ && b.topic@ == c.topic@ && a.score == b.score && b.score == c.score {
        lemma_lex_cmp_transitive(c.docid@, b.docid@, a.docid@);
    }
}

/// In an ordered run, an entry never comes before one ahead of it, however
/// far apart: topics ascend; within a topic scores descend; and where topic
/// and score are equal, document identifiers descend.
pub proof fn lemma_ordered_run(s: Seq<TrecEntry>, i: int, j: int)
    requires
        run_ordered(s),
        0 <= i < j < s.len(),
    ensures
        !precedes(s[j], s[i]),
        lex_cmp(s[i].topic@, s[j].topic@) <= 0,
        s[i].topic@ == s[j].topic@ ==> s[i].score >= s[j].score,
        s[i].topic@ == s[j].topic@ && s[i].score == s[j].score ==> lex_cmp(s[i].docid@, s[j].docid@) >= 0,
    decreases j - i,
{
    if j == i + 1 {
        assert(!precedes(s[i + 1], s[i]));
    } else {
        lemma_ordered_run(s, i, j - 1);
        let k = j - 1;
        assert(!precedes(s[k + 1], s[k]));
        lemma_not_before_transitive(s[i], s[j - 1], s[j]);
    }
    lemma_lex_cmp_antisymmetric(s[i].topic@, s[j].topic@);
    lemma_lex_cmp_antisymmetric(s[i].docid@, s[j].docid@);
    lemma_lex_cmp_zero(s[i].topic@, s[j].topic@);
}

/// Decides whether `a` comes strictly before `b`.
pub fn entry_precedes(a: &TrecEntry, b: &TrecEntry) -> (r: bool)
    ensures
        r == precedes(*a, *b),
{
    let t = compare_ids(&a.topic, &b.topic);
    if t != 0 {
        return t < 0;
    }
    if a.score != b.score {
        return a.score > b.score;
    }
    compare_ids(&a.docid, &b.docid) > 0
}

/// Puts the entries of a run in order; entries that tie on topic, score and
/// document keep the order they came in.
pub fn order(run: Vec<TrecEntry>) -> (r: Vec<TrecEntry>)
    ensures
        r@.to_multiset() == run@.to_multiset(),
        run_ordered(r@),
{
    let ghost all = run@.to_multiset();
    let mut input = run;
    let mut out: Vec<TrecEntry> = Vec::new();
    proof {
        vstd::seq_lib::to_multiset_len(out@);
    }
    assert(out@.to_multiset() =~= Multiset::empty());
    assert(out@.to_multiset().add(input@.to_multiset()) =~= all);
    while input.len() > 0
        invariant
            out@.to_multiset().add(input@.to_multiset()) == all,
            run_ordered(out@),
        decreases input@.len(),
    {
        proof {
            vstd::seq_lib::to_multiset_remove(input@, 0);
            vstd::seq_lib::to_multiset_contains(input@, input@[0]);
            assert(input@.contains(input@[0]));
        }
        let ghost before_in = input@;
        let x = input.remove(0);
        let mut p: usize = 0;
        while p < out.len() && !entry_precedes(&x, &out[p])
            invariant
                p <= out@.len(),
                forall|j: int| 0 <= j < p ==> !precedes(x, #[trigger] out@[j]),
            decreases out@.len() - p,
        {
            p = p + 1;
        }
        let ghost before = out@;
        proof {
            vstd::seq_lib::to_multiset_insert(out@, p as int, x);
            if p < out@.len() {
                lemma_precedes_asymmetric(x, out@[p as int]);
            }
        }
        out.insert(p, x);
        assert(run_ordered(out@)) by {
            assert forall|i: int| 0 <= i < out@.len() - 1 implies !precedes(#[trigger] out@[i + 1], out@[i]) by {
                if i < p as int - 1 {
                    assert(out@[i] == before[i] && out@[i + 1] == before[i + 1]);
                    assert(!precedes(before[i + 1], before[i]));
                } else if i == p as int - 1 {
                    assert(out@[i] == before[i] && out@[i + 1] == x);
                    assert(!precedes(x, before[i]));
                } else if i == p as int {
                    assert(out@[i] == x && out@[i + 1] == before[i]);
                    assert(precedes(x, before[i]));
                } else {
                    assert(out@[i] == before[i - 1] && out@[i + 1] == before[i]);
                    let j = i - 1;
                    assert(!precedes(before[j + 1], before[j]));
                }
            }
        }
        assert(out@.to_multiset().add(input@.to_multiset()) =~= all);
    }
    proof {
        vstd::seq_lib::to_multiset_len(input@);
    }
    assert(input@.to_multiset() =~= Multiset::empty());
    assert(out@.to_multiset() =~= all);
    out
}

} // verus!
