//! The judgment store: every judgment of the qrels, the grade lookup used
//! while scoring a run, each topic's ideal gains, and the largest grade.
use vstd::prelude::*;
use crate::entry::QrelEntry;
use crate::ident::same_id;
use crate::metric::{grades_in_range, MAX_GRADE};

verus! {

/// Why judgments cannot be evaluated against.
#[derive(PartialEq, Eq, Structural, Debug, Clone, Copy)]
pub enum StoreError {
    /// A grade is above `MAX_GRADE`, so `2^grade` would not fit.
    GradeTooLarge,
}

/// All judgments, in the order they were read, and the largest grade among them.
pub struct JudgmentStore {
    pub qrels: Vec<QrelEntry>,
    pub max_judgment: u32,
}

/// No judgment's grade is above `MAX_GRADE`.
pub open spec fn grades_bounded(s: Seq<QrelEntry>) -> bool {
    forall|i: int| 0 <= i < s.len() ==> #[trigger] s[i].relevance <= MAX_GRADE
}

/// The largest grade among the judgments, or 0 where none is positive.
pub open spec fn max_grade(s: Seq<QrelEntry>) -> int
    decreases s.len(),
{
    if s.len() == 0 {
        0
    } else {
        let m = max_grade(s.drop_last());
        if s.last().relevance > m { s.last().relevance as int } else { m }
    }
}

/// The grade of document `d` for topic `t`: that of its first judgment with a
/// nonnegative grade, 0 where it has none (unjudged, or judged negative).
pub open spec fn lookup_grade(s: Seq<QrelEntry>, t: Seq<u8>, d: Seq<u8>) -> int
    decreases s.len(),
{
    if s.len() == 0 {
        0
    } else if s[0].topic@ == t && s[0].docid@ == d && s[0].relevance >= 0 {
        s[0].relevance as int
    } else {
        lookup_grade(s.drop_first(), t, d)
    }
}

/// How many judgments give topic `t` the grade `g`.
pub open spec fn grade_count(s: Seq<QrelEntry>, t: Seq<u8>, g: int) -> nat
    decreases s.len(),
{
    if s.len() == 0 {
        0
    } else {
        grade_count(s.drop_last(), t, g) + if s.last().topic@ == t && s.last().relevance == g { 1nat } else { 0nat }
    }
}

/// The grades from `g` up to `MAX_GRADE` that topic `t` received, largest
/// first, each repeated as often as it was given.
pub open spec fn grades_from(s: Seq<QrelEntry>, t: Seq<u8>, g: int) -> Seq<u32>
    decreases MAX_GRADE + 1 - g,
{
    if g > MAX_GRADE || g < 0 {
        Seq::empty()
    } else {
        grades_from(s, t, g + 1) + Seq::new(grade_count(s, t, g), |i: int| g as u32)
    }
}

/// A topic's ideal gains: its nonnegative grades sorted from largest to smallest.
pub open spec fn ideal_grades(s: Seq<QrelEntry>, t: Seq<u8>) -> Seq<u32> {
    grades_from(s, t, 0)
}

impl JudgmentStore {
    pub open spec fn wf(&self) -> bool {
        &&& grades_bounded(self.qrels@)
        &&& self.max_judgment as int == max_grade(self.qrels@)
        &&& self.max_judgment <= MAX_GRADE
    }

    /// Takes the judgments in; fails where a grade is too large to score.
    pub fn load(qrels: Vec<QrelEntry>) -> (r: Result<JudgmentStore, StoreError>)
        ensures
            r is Ok <==> grades_bounded(qrels@),
            r is Ok ==> r->Ok_0.wf() && r->Ok_0.qrels@ == qrels@,
            r is Err ==> r->Err_0 == StoreError::GradeTooLarge,
    {
        let mut m: u32 = 0;
        let mut i: usize = 0;
        while i < qrels.len()
            invariant
                i <= qrels@.len(),
                grades_bounded(qrels@.subrange(0, i as int)),
                m as int == max_grade(qrels@.subrange(0, i as int)),
                m <= MAX_GRADE,
            decreases qrels.len() - i,
        {
            let g = qrels[i].relevance;
            if g > MAX_GRADE as i32 {
                assert(qrels@.subrange(0, i as int + 1)[i as int].relevance == g);
                return Err(StoreError::GradeTooLarge);
            }
            assert(qrels@.subrange(0, i as int + 1).drop_last() =~= qrels@.subrange(0, i as int));
            if g > m as i32 {
                m = g as u32;
            }
            i = i + 1;
            assert(grades_bounded(qrels@.subrange(0, i as int))) by {
                assert forall|j: int| 0 <= j < i implies #[trigger] qrels@.subrange(0, i as int)[j].relevance <= MAX_GRADE by {
                    if j < i - 1 {
                        assert(qrels@.subrange(0, i as int)[j] == qrels@.subrange(0, i - 1)[j]);
                    }
                }
            }
        }
        assert(qrels@.subrange(0, i as int) =~= qrels@);
        Ok(JudgmentStore { qrels, max_judgment: m })
    }

    /// The grade a run earns by retrieving `docid` for `topic`.
    pub fn lookup(&self, topic: &Vec<u8>, docid: &Vec<u8>) -> (r: u32)
        requires
            self.wf(),
        ensures
            r as int == lookup_grade(self.qrels@, topic@, docid@),
            r <= MAX_GRADE,
    {
        let mut i: usize = 0;
        assert(self.qrels@.subrange(0, self.qrels@.len() as int) =~= self.qrels@);
        while i < self.qrels.len()
            invariant
                self.wf(),
                i <= self.qrels@.len(),
                lookup_grade(self.qrels@, topic@, docid@) == lookup_grade(
                    self.qrels@.subrange(i as int, self.qrels@.len() as int),
                    topic@,
                    docid@,
                ),
            decreases self.qrels.len() - i,
        {
            let e = &self.qrels[i];
            let ghost rest = self.qrels@.subrange(i as int, self.qrels@.len() as int);
            assert(rest[0] == self.qrels@[i as int]);
            if e.relevance >= 0 && same_id(&e.topic, topic) && same_id(&e.docid, docid) {
                return e.relevance as u32;
            }
            assert(rest.drop_first() =~= self.qrels@.subrange(i + 1, self.qrels@.len() as int));
            i = i + 1;
        }
        0
    }

    /// The ideal gains of `topic`: its nonnegative grades, largest first.
    pub fn ideal_gains(&self, topic: &Vec<u8>) -> (r: Vec<u32>)
        requires
            self.wf(),
        ensures
            r@ == ideal_grades(self.qrels@, topic@),
            grades_in_range(r@),
    {
        let mut r: Vec<u32> = Vec::new();
        let mut g: u32 = MAX_GRADE + 1;
        while g > 0
            invariant
                self.wf(),
                g <= MAX_GRADE + 1,
                r@ == grades_from(self.qrels@, topic@, g as int),
                grades_in_range(r@),
            decreases g,
        {
            g = g - 1;
            let ghost before = r@;
            let mut i: usize = 0;
            while i < self.qrels.len()
                invariant
                    self.wf(),
                    g <= MAX_GRADE,
                    i <= self.qrels@.len(),
                    before == grades_from(self.qrels@, topic@, g + 1),
                    r@ == before + Seq::new(
                        grade_count(self.qrels@.subrange(0, i as int), topic@, g as int),
                        |j: int| g,
                    ),
                    grades_in_range(r@),
                decreases self.qrels.len() - i,
            {
                let e = &self.qrels[i];
                assert(self.qrels@.subrange(0, i + 1).drop_last() =~= self.qrels@.subrange(0, i as int));
                if e.relevance == g as i32 && same_id(&e.topic, topic) {
                    r.push(g);
                }
                i = i + 1;
                assert(r@ =~= before + Seq::new(
                    grade_count(self.qrels@.subrange(0, i as int), topic@, g as int),
                    |j: int| g,
                ));
            }
            assert(self.qrels@.subrange(0, i as int) =~= self.qrels@);
        }
        r
    }
}

} // verus!
