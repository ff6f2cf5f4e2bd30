//! The score of each job: kept aside when the ride begins, and made final
//! only if the ride ends in time.

use crate::scheduler::job::{JobId, TickComplete};
use crate::util::{Coord, TimeStep};
use vstd::prelude::*;

verus! {

/// The score of one job.
#[derive(Copy, Clone, PartialEq, Eq, Structural, Debug)]
pub enum JobScore {
    /// What the job would earn; it counts for nothing yet.
    Pending(i64),
    /// What the job has earned.
    Final(i64),
}

/// Largest magnitude of a score: a ride length plus a bonus.
pub const SCORE_LIMIT: i64 = 0x1_0000_0000;

/// Largest number of jobs that can be told apart by their ids.
pub const JOB_LIMIT: usize = 0x8000_0000;

impl JobScore {
    /// The score, final or not.
    pub open spec fn value(self) -> int {
        match self {
            JobScore::Pending(v) => v as int,
            JobScore::Final(v) => v as int,
        }
    }

    /// What the job adds to the total: its score if that is final and
    /// positive, else nothing.
    pub open spec fn counted(self) -> int {
        match self {
            JobScore::Final(v) => if v > 0 {
                v as int
            } else {
                0
            },
            JobScore::Pending(_) => 0,
        }
    }

    /// The score once the ride has ended in time.
    pub open spec fn confirmed(self) -> JobScore {
        JobScore::Final(self.value() as i64)
    }

    /// The score is within `SCORE_LIMIT` of zero.
    pub open spec fn bounded(self) -> bool {
        -SCORE_LIMIT <= self.value() <= SCORE_LIMIT
    }
}

/// What a ride may earn: its length, and the bonus on top if it begins
/// exactly at the job's earliest start.
pub open spec fn start_value(length: int, earliest_start: int, now: int, bonus: int) -> int {
    length + if now == earliest_start {
        bonus
    } else {
        0
    }
}

/// The scores after `event` was reported at tick `now`. A departure sets the
/// job's score aside; an arrival before the job's latest finish makes it
/// final; an arrival at or after it changes nothing.
pub open spec fn record(scores: Seq<JobScore>, event: TickComplete, now: int, bonus: int) -> Seq<
    JobScore,
> {
    match event {
        TickComplete::Continue => scores,
        TickComplete::JobStart(id, length, earliest_start) => if 0 <= id < scores.len() {
            scores.update(
                id as int,
                JobScore::Pending(
                    start_value(length as int, earliest_start as int, now, bonus) as i64,
                ),
            )
        } else {
            scores
        },
        TickComplete::JobComplete(id, latest_finish, _) => if 0 <= id < scores.len() && now
            < latest_finish {
            scores.update(id as int, scores[id as int].confirmed())
        } else {
            scores
        },
    }
}

/// Sum of what the jobs add to the total.
pub open spec fn total(scores: Seq<JobScore>) -> int
    decreases scores.len(),
{
    if scores.len() == 0 {
        0
    } else {
        total(scores.drop_last()) + scores.last().counted()
    }
}

/// Every score is within `SCORE_LIMIT` of zero.
pub open spec fn all_bounded(scores: Seq<JobScore>) -> bool {
    forall|i: int| 0 <= i < scores.len() ==> (#[trigger] scores[i]).bounded()
}

/// The scores of `n` jobs of which none has begun.
pub open spec fn blank(n: nat) -> Seq<JobScore> {
    Seq::new(n, |i: int| JobScore::Pending(0))
}

/// Changing one score changes the total by the difference in what that job
/// adds to it.
pub proof fn lemma_total_update(scores: Seq<JobScore>, i: int, entry: JobScore)
    requires
        0 <= i < scores.len(),
    ensures
        total(scores.update(i, entry)) == total(scores) - scores[i].counted() + entry.counted(),
    decreases scores.len(),
{
    let after = scores.update(i, entry);
    if i == scores.len() - 1 {
        assert(after.drop_last() =~= scores.drop_last());
    } else {
        assert(after.drop_last() =~= scores.drop_last().update(i, entry));
        lemma_total_update(scores.drop_last(), i, entry);
    }
}

/// Recording an event keeps every score within bounds.
pub proof fn lemma_record_bounded(scores: Seq<JobScore>, event: TickComplete, now: int, bonus: int)
    requires
        all_bounded(scores),
        i32::MIN <= bonus <= i32::MAX,
    ensures
        all_bounded(record(scores, event, now, bonus)),
        record(scores, event, now, bonus).len() == scores.len(),
{
    let after = record(scores, event, now, bonus);
    assert forall|i: int| 0 <= i < after.len() implies (#[trigger] after[i]).bounded() by {}
}

/// A job under way counts in the total exactly if its ride ends before the
/// job's latest finish; the total then grows by the job's score where that
/// is positive, and else stays as it was.
pub proof fn lemma_counted_iff_on_time(
    scores: Seq<JobScore>,
    id: JobId,
    latest_finish: TimeStep,
    end: Coord,
    now: int,
    bonus: int,
)
    requires
        0 <= id < scores.len(),
        scores[id as int] is Pending,
        scores[id as int].bounded(),
    ensures
        ({
            let after = record(scores, TickComplete::JobComplete(id, latest_finish, end), now, bonus);
            let value = scores[id as int].value();
            &&& after[id as int] is Final <==> now < latest_finish
            &&& after[id as int].value() == value
            &&& total(after) == total(scores) + if now < latest_finish && value > 0 {
                value
            } else {
                0
            }
        }),
{
    if now < latest_finish {
        lemma_total_update(scores, id as int, scores[id as int].confirmed());
    }
}

/// The scores of all jobs of a simulation, by job id.
pub struct ScoreBoard {
    entries: Vec<JobScore>,
}

impl View for ScoreBoard {
    type V = Seq<JobScore>;

    closed spec fn view(&self) -> Seq<JobScore> {
        self.entries@
    }
}

impl ScoreBoard {
    /// At most `JOB_LIMIT` scores, each within bounds.
    pub open spec fn wf(&self) -> bool {
        self@.len() <= JOB_LIMIT && all_bounded(self@)
    }

    /// A board for `n` jobs of which none has begun.
    pub fn new(n: usize) -> (board: ScoreBoard)
        requires
            n <= JOB_LIMIT,
        ensures
            board@ == blank(n as nat),
            board.wf(),
    {
        let mut entries: Vec<JobScore> = Vec::new();
        let mut i: usize = 0;
        while i < n
            invariant
                i <= n,
                entries@.len() == i,
                forall|k: int| 0 <= k < i ==> entries@[k] == JobScore::Pending(0),
            decreases n - i,
        {
            entries.push(JobScore::Pending(0));
            i = i + 1;
        }
        ScoreBoard { entries }
    }

    /// Number of jobs the board keeps a score for.
    pub fn len(&self) -> (n: usize)
        ensures
            n == self@.len(),
    {
        self.entries.len()
    }

    /// The score of the job `id`, if there is such a job.
    pub fn get(&self, id: JobId) -> (entry: Option<JobScore>)
        ensures
            entry == (if 0 <= id < self@.len() {
                Some(self@[id as int])
            } else {
                None
            }),
    {
        if id >= 0 && (id as usize) < self.entries.len() {
            Some(self.entries[id as usize])
        } else {
            None
        }
    }

    /// Takes note of what a vehicle reported at tick `now`.
    pub fn record(&mut self, event: &TickComplete, now: TimeStep, bonus: i32)
        requires
            old(self).wf(),
        ensures
            final(self)@ == record(old(self)@, *event, now as int, bonus as int),
            final(self).wf(),
    {
        proof {
            lemma_record_bounded(self@, *event, now as int, bonus as int);
        }
        match *event {
            TickComplete::Continue => {},
            TickComplete::JobStart(id, length, earliest_start) => {
                if id >= 0 && (id as usize) < self.entries.len() {
                    let extra: i64 = if now == earliest_start {
                        bonus as i64
                    } else {
                        0
                    };
                    self.entries[id as usize] = JobScore::Pending(length as i64 + extra);
                }
            },
            TickComplete::JobComplete(id, latest_finish, _) => {
                if id >= 0 && (id as usize) < self.entries.len() && now < latest_finish {
                    let value: i64 = match self.entries[id as usize] {
                        JobScore::Pending(v) => v,
                        JobScore::Final(v) => v,
                    };
                    self.entries[id as usize] = JobScore::Final(value);
                }
            },
        }
    }

    /// Sum of the final, positive scores.
    pub fn total(&self) -> (sum: u64)
        requires
            self.wf(),
        ensures
            sum == total(self@),
    {
        let mut sum: u64 = 0;
        let mut i: usize = 0;
        while i < self.entries.len()
            invariant
                i <= self.entries.len(),
                self.wf(),
                sum == total(self@.take(i as int)),
                sum <= i * SCORE_LIMIT,
            decreases self.entries.len() - i,
        {
            proof {
                assert(self@.take(i as int + 1).drop_last() =~= self@.take(i as int));
                assert(i * SCORE_LIMIT <= JOB_LIMIT * SCORE_LIMIT) by (nonlinear_arith)
                    requires
                        i <= JOB_LIMIT,
                ;
            }
            match self.entries[i] {
                JobScore::Final(v) => {
                    if v > 0 {
                        sum = sum + v as u64;
                    }
                },
                JobScore::Pending(_) => {},
            }
            i = i + 1;
        }
        proof {
            assert(self@.take(i as int) =~= self@);
        }
        sum
    }
}

} // verus!
