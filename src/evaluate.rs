//! The evaluation driver: splits an ordered run into topics and gives each
//! topic its gain sequence and its ideal gains.
use vstd::prelude::*;
use crate::entry::TrecEntry;
use crate::ident::{copy_id, same_id};
use crate::metric::grades_in_range;
use crate::ident::{lex_cmp, lemma_lex_cmp_antisymmetric, lemma_lex_cmp_transitive, lemma_lex_cmp_zero};
use crate::ranking::{order, run_ordered};
use crate::store::{ideal_grades, lookup_grade, JudgmentStore};

verus! {

/// Why a run cannot be evaluated.
#[derive(PartialEq, Eq, Structural, Debug, Clone, Copy)]
pub enum EvalError {
    /// The run has no entries: no run name to report, no topic to average over.
    EmptyRun,
}

/// One topic of a run: the grades of the documents it retrieved, in rank
/// order, and the topic's ideal gains.
#[derive(Debug)]
pub struct TopicGains {
    pub topic: Vec<u8>,
    pub gains: Vec<u32>,
    pub ideal: Vec<u32>,
}

/// What a run's report is computed from.
#[derive(Debug)]
pub struct Evaluation {
    pub runid: Vec<u8>,
    pub max_judgment: u32,
    pub topics: Vec<TopicGains>,
}

/// The topics of a sequence of entries, in order, each with the documents of
/// its consecutive entries: a new group starts where the topic changes.
pub open spec fn topic_groups(s: Seq<TrecEntry>) -> Seq<(Seq<u8>, Seq<Seq<u8>>)>
    decreases s.len(),
{
    if s.len() == 0 {
        Seq::empty()
    } else {
        let g = topic_groups(s.drop_last());
        let e = s.last();
        if g.len() > 0 && g.last().0 == e.topic@ {
            g.update(g.len() - 1, (e.topic@, g.last().1.push(e.docid@)))
        } else {
            g.push((e.topic@, seq![e.docid@]))
        }
    }
}

/// The grades that judgments `q` give the documents `docs` under topic `t`.
pub open spec fn gains_of(q: Seq<crate::entry::QrelEntry>, t: Seq<u8>, docs: Seq<Seq<u8>>) -> Seq<u32> {
    Seq::new(docs.len(), |j: int| lookup_grade(q, t, docs[j]) as u32)
}

/// `tg` is the evaluation of the group `grp` against judgments `q`.
pub open spec fn topic_matches(q: Seq<crate::entry::QrelEntry>, tg: TopicGains, grp: (Seq<u8>, Seq<Seq<u8>>)) -> bool {
    &&& tg.topic@ == grp.0
    &&& tg.gains@ == gains_of(q, grp.0, grp.1)
    &&& tg.ideal@ == ideal_grades(q, grp.0)
    &&& grades_in_range(tg.gains@)
    &&& grades_in_range(tg.ideal@)
}

/// The topics of `out` are those of `run`, one for one.
pub open spec fn evaluates(q: Seq<crate::entry::QrelEntry>, out: Seq<TopicGains>, run: Seq<TrecEntry>) -> bool {
    let g = topic_groups(run);
    &&& out.len() == g.len()
    &&& forall|i: int| 0 <= i < out.len() ==> topic_matches(q, #[trigger] out[i], g[i])
}

/// The groups of an ordered run have ascending topics, one after the other,
/// and the last group is that of the last entry.
proof fn lemma_groups_ascend(s: Seq<TrecEntry>)
    requires
        run_ordered(s),
    ensures
        s.len() > 0 ==> topic_groups(s).len() > 0 && topic_groups(s).last().0 == s.last().topic@,
        forall|i: int| 0 <= i < topic_groups(s).len() - 1 ==> lex_cmp(#[trigger] topic_groups(s)[i].0, topic_groups(s)[i + 1].0) < 0,
    decreases s.len(),
{
    if s.len() > 0 {
        let t = s.drop_last();
        assert(run_ordered(t)) by {
            assert forall|i: int| 0 <= i < t.len() - 1 implies !crate::ranking::precedes(#[trigger] t[i + 1], t[i]) by {
                assert(t[i + 1] == s[i + 1] && t[i] == s[i]);
            }
        }
        lemma_groups_ascend(t);
        let g = topic_groups(t);
        let e = s.last();
        if t.len() > 0 {
            let k = s.len() - 2;
            assert(!crate::ranking::precedes(s[k + 1], s[k]));
            assert(t.last() == s[k]);
            lemma_lex_cmp_antisymmetric(t.last().topic@, e.topic@);
            lemma_lex_cmp_zero(t.last().topic@, e.topic@);
        }
        let h = topic_groups(s);
        assert forall|i: int| 0 <= i < h.len() - 1 implies lex_cmp(#[trigger] h[i].0, h[i + 1].0) < 0 by {
            if i < g.len() - 1 {
                assert(h[i].0 == g[i].0 && h[i + 1].0 == g[i + 1].0);
            }
        }
    }
}

/// In the evaluation of an ordered run, topics ascend strictly: each topic
/// of the run is evaluated once, and in ascending order.
pub proof fn lemma_topics_ascend(q: Seq<crate::entry::QrelEntry>, out: Seq<TopicGains>, run: Seq<TrecEntry>, i: int, j: int)
    requires
        run_ordered(run),
        evaluates(q, out, run),
        0 <= i < j < out.len(),
    ensures
        lex_cmp(out[i].topic@, out[j].topic@) < 0,
    decreases j - i,
{
    lemma_groups_ascend(run);
    let g = topic_groups(run);
    assert(topic_matches(q, out[j - 1], g[j - 1]) && topic_matches(q, out[j], g[j]));
    let k = j - 1;
    assert(lex_cmp(g[k].0, g[k + 1].0) < 0);
    if i < j - 1 {
        lemma_topics_ascend(q, out, run, i, j - 1);
        lemma_lex_cmp_transitive(out[i].topic@, out[j - 1].topic@, out[j].topic@);
    }
}

/// Evaluates a run that is already in order: one topic per group of
/// consecutive entries with the same topic.
pub fn evaluate_ordered(store: &JudgmentStore, run: &Vec<TrecEntry>) -> (r: Result<Evaluation, EvalError>)
    requires
        store.wf(),
    ensures
        run@.len() == 0 <==> r is Err,
        r is Err ==> r->Err_0 == EvalError::EmptyRun,
        r is Ok ==> ({
            let ev = r->Ok_0;
            &&& ev.runid@ == run@[0].runid@
            &&& ev.max_judgment == store.max_judgment
            &&& evaluates(store.qrels@, ev.topics@, run@)
        }),
{
    if run.len() == 0 {
        return Err(EvalError::EmptyRun);
    }
    let ghost q = store.qrels@;
    let mut done: Vec<TopicGains> = Vec::new();
    let mut cur_topic: Vec<u8> = copy_id(&run[0].topic);
    let first = store.lookup(&run[0].topic, &run[0].docid);
    let mut cur_gains: Vec<u32> = Vec::new();
    cur_gains.push(first);
    let mut i: usize = 1;
    assert(run@.subrange(0, 1).drop_last() =~= Seq::<TrecEntry>::empty());
    assert(run@.subrange(0, 1).last() == run@[0]);
    assert(topic_groups(Seq::<TrecEntry>::empty()).len() == 0);
    assert(topic_groups(run@.subrange(0, 1)) == Seq::<(Seq<u8>, Seq<Seq<u8>>)>::empty().push(
        (run@[0].topic@, seq![run@[0].docid@]),
    ));
    assert(cur_gains@ =~= gains_of(q, cur_topic@, seq![run@[0].docid@]));
    while i < run.len()
        invariant
            store.wf(),
            q == store.qrels@,
            1 <= i <= run@.len(),
            ({
                let g = topic_groups(run@.subrange(0, i as int));
                &&& g.len() == done@.len() + 1
                &&& forall|j: int| 0 <= j < done@.len() ==> topic_matches(q, #[trigger] done@[j], g[j])
                &&& g.last().0 == cur_topic@
                &&& cur_gains@ == gains_of(q, cur_topic@, g.last().1)
                &&& grades_in_range(cur_gains@)
            }),
        decreases run.len() - i,
    {
        let ghost g0 = topic_groups(run@.subrange(0, i as int));
        assert(run@.subrange(0, i + 1).drop_last() =~= run@.subrange(0, i as int));
        let e = &run[i];
        let gain = store.lookup(&e.topic, &e.docid);
        if same_id(&e.topic, &cur_topic) {
            cur_gains.push(gain);
            assert(cur_gains@ =~= gains_of(q, cur_topic@, g0.last().1.push(e.docid@)));
        } else {
            let ideal = store.ideal_gains(&cur_topic);
            let next_topic = copy_id(&e.topic);
            let mut next_gains: Vec<u32> = Vec::new();
            next_gains.push(gain);
            let finished = TopicGains { topic: cur_topic, gains: cur_gains, ideal };
            assert(topic_matches(q, finished, g0[g0.len() - 1]));
            done.push(finished);
            cur_topic = next_topic;
            cur_gains = next_gains;
            assert(cur_gains@ =~= gains_of(q, cur_topic@, seq![e.docid@]));
        }
        i = i + 1;
        proof {
            let g = topic_groups(run@.subrange(0, i as int));
            assert forall|j: int| 0 <= j < done@.len() implies topic_matches(q, #[trigger] done@[j], g[j]) by {
                assert(g[j] == g0[j]);
            }
        }
    }
    let ghost g0 = topic_groups(run@.subrange(0, i as int));
    let ideal = store.ideal_gains(&cur_topic);
    let last = TopicGains { topic: cur_topic, gains: cur_gains, ideal };
    assert(topic_matches(q, last, g0[g0.len() - 1]));
    done.push(last);
    assert(run@.subrange(0, i as int) =~= run@);
    Ok(Evaluation { runid: copy_id(&run[0].runid), max_judgment: store.max_judgment, topics: done })
}

/// Evaluates a run: orders it, then evaluates it topic by topic. An empty
/// run is an error.
pub fn evaluate(store: &JudgmentStore, run: Vec<TrecEntry>) -> (r: Result<Evaluation, EvalError>)
    requires
        store.wf(),
    ensures
        run@.len() == 0 <==> r is Err,
        r is Err ==> r->Err_0 == EvalError::EmptyRun,
        r is Ok ==> exists|o: Seq<TrecEntry>| {
            &&& o.to_multiset() == run@.to_multiset()
            &&& run_ordered(o)
            &&& #[trigger] evaluates(store.qrels@, r->Ok_0.topics@, o)
            &&& r->Ok_0.runid@ == o[0].runid@
            &&& r->Ok_0.max_judgment == store.max_judgment
        },
{
    let ordered = order(run);
    proof {
        vstd::seq_lib::to_multiset_len(ordered@);
        vstd::seq_lib::to_multiset_len(run@);
    }
    evaluate_ordered(store, &ordered)
}

} // verus!
