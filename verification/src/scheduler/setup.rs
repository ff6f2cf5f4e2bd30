//! From the lines of an input to the state in which a simulation begins.

use crate::scheduler::input::{numbers_of, record_fault, InputError};
use crate::scheduler::job::{Job, JobId, JobView};
use crate::scheduler::job::lemma_job_from_view;
use crate::scheduler::model::{held, pending_id, scanned_before, SchedulerView};
use crate::scheduler::order::{by_rank, lemma_rank_total, Ranked};
use crate::scheduler::score::{blank, JOB_LIMIT};
use crate::util::Coord;
use crate::vehicle::VehicleView;
use vstd::prelude::*;
use vstd::relations::sorted_by;

verus! {

/// The job that a record describes, under the given id: the start point,
/// the end point, the earliest start and the latest finish, in this order.
pub open spec fn job_of(numbers: Seq<i32>, id: JobId) -> JobView {
    JobView {
        id,
        start: Coord { x: numbers[0], y: numbers[1] },
        end: Coord { x: numbers[2], y: numbers[3] },
        earliest_start: numbers[4],
        latest_finish: numbers[5],
    }
}

/// What is wrong with the line `i`, if anything. Beyond being a record, the
/// first line must not give a negative number of vehicles or of jobs, and
/// every other line must describe a job whose end points are in range.
pub open spec fn line_fault(lines: Seq<Seq<u8>>, i: int) -> Option<InputError> {
    match record_fault(lines[i], i as usize) {
        Some(e) => Some(e),
        None => {
            let numbers = numbers_of(lines[i]);
            if i == 0 {
                if numbers[2] < 0 || numbers[3] < 0 {
                    Some(InputError::NegativeCount)
                } else {
                    None
                }
            } else if !job_of(numbers, (i - 1) as i32).in_range() {
                Some(InputError::OutOfRange { line: i as usize })
            } else {
                None
            }
        },
    }
}

/// What is wrong with the first of the lines before `upto` with which
/// anything is wrong.
pub open spec fn first_fault(lines: Seq<Seq<u8>>, upto: int) -> Option<InputError>
    decreases upto,
{
    if upto <= 0 {
        None
    } else {
        match first_fault(lines, upto - 1) {
            Some(e) => Some(e),
            None => line_fault(lines, upto - 1),
        }
    }
}

/// Why an input is turned down, if it is: it has no first line, or more job
/// lines than there are ids, or a line with which something is wrong.
pub open spec fn input_fault(lines: Seq<Seq<u8>>) -> Option<InputError> {
    if lines.len() == 0 {
        Some(InputError::MissingHeader)
    } else if lines.len() - 1 > JOB_LIMIT {
        Some(InputError::TooManyJobs)
    } else {
        first_fault(lines, lines.len() as int)
    }
}

/// Each job line by its earliest start and its id.
pub open spec fn ranked_jobs(lines: Seq<Seq<u8>>) -> Seq<Ranked> {
    Seq::new((lines.len() - 1) as nat, |i: int| (numbers_of(lines[i + 1])[4], i as usize))
}

/// The state in which the simulation of an input begins: the first line
/// gives the grid, the numbers of vehicles and of jobs, the bonus and the
/// horizon; every other line is a job, with ids in the order of the lines.
/// All vehicles are new, the jobs are pending by earliest start and then
/// id, and no job has scored.
pub open spec fn initial(lines: Seq<Seq<u8>>) -> SchedulerView {
    let header = numbers_of(lines[0]);
    let order = ranked_jobs(lines).sort_by(by_rank());
    SchedulerView {
        num_rows: header[0],
        num_cols: header[1],
        num_vehicles: header[2],
        num_jobs: header[3],
        ride_bonus: header[4],
        max_tsteps: header[5],
        current_step: 0,
        fleet: Seq::new(header[2] as nat, |v: int| VehicleView::fresh(v as i32)),
        pending: Seq::new(
            (lines.len() - 1) as nat,
            |k: int|
                Job::from_view(job_of(numbers_of(lines[order[k].1 + 1]), order[k].1 as i32)),
        ),
        scores: blank((lines.len() - 1) as nat),
    }
}

/// A fault found at a line, none being found before it, is the fault of the
/// input.
pub proof fn lemma_first_fault_found(lines: Seq<Seq<u8>>, i: int, upto: int)
    requires
        0 <= i < upto,
        first_fault(lines, i) is None,
        line_fault(lines, i) is Some,
    ensures
        first_fault(lines, upto) == line_fault(lines, i),
    decreases upto - i,
{
    if upto > i + 1 {
        lemma_first_fault_found(lines, i, upto - 1);
    }
}

/// Vehicles that hold nothing hold nothing together.
pub proof fn lemma_held_none(fleet: Seq<VehicleView>)
    requires
        forall|v: int| 0 <= v < fleet.len() ==> (#[trigger] fleet[v]).holdings().len() == 0,
    ensures
        held(fleet) == 0,
    decreases fleet.len(),
{
    if fleet.len() > 0 {
        assert forall|v: int| 0 <= v < fleet.drop_last().len() implies (
        #[trigger] fleet.drop_last()[v]).holdings().len() == 0 by {}
        lemma_held_none(fleet.drop_last());
    }
}

/// Where the lines before `upto` are without fault, each of them is.
pub proof fn lemma_no_fault_before(lines: Seq<Seq<u8>>, upto: int, i: int)
    requires
        first_fault(lines, upto) is None,
        0 <= i < upto,
    ensures
        line_fault(lines, i) is None,
    decreases upto,
{
    if i < upto - 1 {
        lemma_no_fault_before(lines, upto - 1, i);
    }
}

/// The order in which the jobs are pending at first holds every job line
/// once, each with its earliest start, and is sorted.
pub proof fn lemma_job_order(lines: Seq<Seq<u8>>)
    requires
        1 <= lines.len() <= JOB_LIMIT + 1,
    ensures
        ({
            let ranked = ranked_jobs(lines);
            let order = ranked.sort_by(by_rank());
            &&& order.len() == lines.len() - 1
            &&& sorted_by(order, by_rank())
            &&& forall|k: int|
                0 <= k < order.len() ==> (#[trigger] order[k]).1 < order.len() && order[k]
                    == ranked[order[k].1 as int]
            &&& forall|a: int, b: int|
                0 <= a < order.len() && 0 <= b < order.len() && a != b ==> (#[trigger] order[a]).1
                    != (#[trigger] order[b]).1
        }),
{
    let ranked = ranked_jobs(lines);
    let order = ranked.sort_by(by_rank());
    lemma_rank_total();
    ranked.lemma_sort_by_ensures(by_rank());
    ranked.to_multiset_ensures();
    order.to_multiset_ensures();
    ranked.lemma_multiset_has_no_duplicates();
    order.lemma_multiset_has_no_duplicates_conv();
    assert forall|k: int| 0 <= k < order.len() implies (#[trigger] order[k]).1 < order.len()
        && order[k] == ranked[order[k].1 as int] by {
        assert(ranked.to_multiset().count(order[k]) > 0);
    }
    assert forall|a: int, b: int|
        0 <= a < order.len() && 0 <= b < order.len() && a != b implies (#[trigger] order[a]).1 != (
    #[trigger] order[b]).1 by {}
}

/// A simulation begins in order.
pub proof fn lemma_initial_wf(lines: Seq<Seq<u8>>)
    requires
        input_fault(lines) is None,
    ensures
        initial(lines).wf(),
        initial(lines).in_order(),
        initial(lines).current_step == 0,
{
    let s = initial(lines);
    let order = ranked_jobs(lines).sort_by(by_rank());
    lemma_job_order(lines);
    lemma_no_fault_before(lines, lines.len() as int, 0);
    assert forall|v: int| 0 <= v < s.fleet.len() implies (#[trigger] s.fleet[v]).wf()
        && s.fleet[v].ready() && s.fleet[v].id == v && s.fleet[v].holdings().len() == 0
        && s.fleet[v].chronological(0) by {}
    lemma_held_none(s.fleet);
    assert forall|k: int| 0 <= k < s.pending.len() implies s.pending[k]@ == job_of(
        numbers_of(lines[order[k].1 + 1]),
        order[k].1 as i32,
    ) && #[trigger] pending_id(s.pending, k) == order[k].1 && s.pending[k]@.earliest_start
        == order[k].0 && s.pending[k]@.in_range() by {
        lemma_job_from_view(job_of(numbers_of(lines[order[k].1 + 1]), order[k].1 as i32));
        lemma_no_fault_before(lines, lines.len() as int, order[k].1 + 1);
    }
    assert(s.known_jobs()) by {
        assert forall|k: int| 0 <= k < s.pending.len() implies 0 <= #[trigger] pending_id(
            s.pending,
            k,
        ) < s.scores.len() && s.pending[k]@.in_range() by {}
    }
    assert(s.distinct_jobs()) by {
        assert forall|a: int, b: int| 0 <= a < b < s.pending.len() implies #[trigger] pending_id(
            s.pending,
            a,
        ) != #[trigger] pending_id(s.pending, b) by {}
    }
    assert(s.pending_sorted()) by {
        assert forall|a: int, b: int| 0 <= a < b < s.pending.len() implies scanned_before(
            (#[trigger] s.pending[a])@,
            (#[trigger] s.pending[b])@,
        ) by {
            let r = by_rank();
            assert(r(order[a], order[b]));
            assert(pending_id(s.pending, a) == order[a].1);
            assert(pending_id(s.pending, b) == order[b].1);
        }
    }
}

} // verus!
