//! The state of a simulation as mathematical values, and what a tick and a
//! dispatch pass make of it.

use crate::scheduler::job::{Job, JobView};
use crate::scheduler::score::{all_bounded, record, JobScore, JOB_LIMIT};
use crate::util::{manhattan, Coord, TimeStep};
use crate::vehicle::VehicleView;
use vstd::prelude::*;

verus! {

/// The state of a simulation.
pub struct SchedulerView {
    pub num_rows: i32,
    pub num_cols: i32,
    pub num_vehicles: i32,
    pub num_jobs: i32,
    pub ride_bonus: i32,
    pub max_tsteps: TimeStep,
    /// The tick that was simulated last; zero before the first.
    pub current_step: TimeStep,
    /// The vehicles, each at the position of its id.
    pub fleet: Seq<VehicleView>,
    /// The jobs not handed to any vehicle yet, by earliest start, then id.
    pub pending: Seq<Job>,
    /// The score of each job, at the position of its id.
    pub scores: Seq<JobScore>,
}

/// A vehicle standing at `pos` can serve `job` from tick `now` on: it would
/// reach the end before the job's latest finish, unless `relax_end`, and the
/// start before the job's earliest start, unless `relax_start`.
pub open spec fn feasible(
    pos: Coord,
    job: JobView,
    now: int,
    relax_start: bool,
    relax_end: bool,
) -> bool {
    let to_start = manhattan(pos, job.start);
    &&& relax_end || now + to_start + job.length() < job.latest_finish
    &&& relax_start || now + to_start < job.earliest_start
}

/// The vehicle `v` is idle and can serve `job`.
pub open spec fn eligible(
    fleet: Seq<VehicleView>,
    v: int,
    job: JobView,
    now: int,
    relax_start: bool,
    relax_end: bool,
) -> bool {
    &&& 0 <= v < fleet.len()
    &&& fleet[v].is_idle()
    &&& feasible(fleet[v].position().unwrap(), job, now, relax_start, relax_end)
}

/// The vehicle `a` is nearer to `target` than `b`, or as near and of no
/// larger number.
pub open spec fn nearer(fleet: Seq<VehicleView>, a: int, b: int, target: Coord) -> bool {
    let da = manhattan(fleet[a].position().unwrap(), target);
    let db = manhattan(fleet[b].position().unwrap(), target);
    da < db || (da == db && a <= b)
}

/// The vehicle `v` is the one to serve `job`: among the idle vehicles that
/// can serve it, none is nearer to its start.
pub open spec fn is_choice(
    fleet: Seq<VehicleView>,
    v: int,
    job: JobView,
    now: int,
    relax_start: bool,
    relax_end: bool,
) -> bool {
    &&& eligible(fleet, v, job, now, relax_start, relax_end)
    &&& forall|u: int| #[trigger]
        eligible(fleet, u, job, now, relax_start, relax_end) ==> nearer(fleet, v, u, job.start)
}

/// The vehicle to serve `job`, if any idle vehicle can: of those that can,
/// the nearest to its start.
pub open spec fn choice(
    fleet: Seq<VehicleView>,
    job: JobView,
    now: int,
    relax_start: bool,
    relax_end: bool,
) -> Option<int> {
    if exists|v: int| eligible(fleet, v, job, now, relax_start, relax_end) {
        Some(choose|v: int| is_choice(fleet, v, job, now, relax_start, relax_end))
    } else {
        None
    }
}

/// The first pending job, from position `from` on, that some idle vehicle
/// can serve, with the vehicle to serve it.
pub open spec fn first_match(
    fleet: Seq<VehicleView>,
    pending: Seq<Job>,
    from: int,
    now: int,
    relax_start: bool,
    relax_end: bool,
) -> Option<(int, int)>
    decreases pending.len() - from,
{
    if from < 0 || from >= pending.len() {
        None
    } else {
        match choice(fleet, pending[from]@, now, relax_start, relax_end) {
            Some(v) => Some((from, v)),
            None => first_match(fleet, pending, from + 1, now, relax_start, relax_end),
        }
    }
}

/// Some vehicle is idle.
pub open spec fn any_idle(fleet: Seq<VehicleView>) -> bool {
    exists|v: int| 0 <= v < fleet.len() && (#[trigger] fleet[v]).is_idle()
}

/// How far the constraints can still be relaxed.
pub open spec fn relax_room(relax_start: bool, relax_end: bool) -> nat {
    (if relax_start { 0nat } else { 1nat }) + (if relax_end { 0nat } else { 1nat })
}

/// Number of jobs the vehicles hold.
pub open spec fn held(fleet: Seq<VehicleView>) -> nat
    decreases fleet.len(),
{
    if fleet.len() == 0 {
        0
    } else {
        held(fleet.drop_last()) + fleet.last().holdings().len()
    }
}

/// Number of jobs the vehicles have taken up.
pub open spec fn assigned(fleet: Seq<VehicleView>) -> nat
    decreases fleet.len(),
{
    if fleet.len() == 0 {
        0
    } else {
        assigned(fleet.drop_last()) + fleet.last().history.len()
    }
}

/// The id of the `i`-th job that the vehicle `v` holds.
pub open spec fn held_id(fleet: Seq<VehicleView>, v: int, i: int) -> int {
    fleet[v].holdings()[i]@.id as int
}

/// The id of the `k`-th pending job.
pub open spec fn pending_id(pending: Seq<Job>, k: int) -> int {
    pending[k]@.id as int
}

/// The job `a` is scanned before `b`: it may start earlier, or as early and
/// has the smaller id.
pub open spec fn scanned_before(a: JobView, b: JobView) -> bool {
    a.earliest_start < b.earliest_start || (a.earliest_start == b.earliest_start && a.id < b.id)
}

impl SchedulerView {
    /// No job is in two places: not twice among the pending, not pending and
    /// held, not held twice.
    pub open spec fn distinct_jobs(self) -> bool {
        &&& forall|a: int, b: int|
            0 <= a < b < self.pending.len() ==> #[trigger] pending_id(self.pending, a)
                != #[trigger] pending_id(self.pending, b)
        &&& forall|v: int, i: int, k: int|
            0 <= v < self.fleet.len() && 0 <= i < self.fleet[v].holdings().len() && 0 <= k
                < self.pending.len() ==> #[trigger] held_id(self.fleet, v, i) != #[trigger] pending_id(
                self.pending,
                k,
            )
        &&& forall|v: int, i: int, w: int, j: int|
            0 <= v < self.fleet.len() && 0 <= i < self.fleet[v].holdings().len() && 0 <= w
                < self.fleet.len() && 0 <= j < self.fleet[w].holdings().len() && (v != w || i != j)
                ==> #[trigger] held_id(self.fleet, v, i) != #[trigger] held_id(self.fleet, w, j)
    }

    /// Every job is one of those that the scores are kept for, and in range.
    pub open spec fn known_jobs(self) -> bool {
        &&& forall|k: int|
            0 <= k < self.pending.len() ==> 0 <= #[trigger] pending_id(self.pending, k)
                < self.scores.len() && self.pending[k]@.in_range()
        &&& forall|v: int, i: int|
            0 <= v < self.fleet.len() && 0 <= i < self.fleet[v].holdings().len() ==> 0
                <= #[trigger] held_id(self.fleet, v, i) < self.scores.len()
    }

    /// The pending jobs are in the order in which they are scanned.
    pub open spec fn pending_sorted(self) -> bool {
        forall|a: int, b: int|
            0 <= a < b < self.pending.len() ==> scanned_before(
                (#[trigger] self.pending[a])@,
                (#[trigger] self.pending[b])@,
            )
    }

    /// The score of a job is final exactly if its ride has arrived, and did
    /// so before the job's latest finish.
    pub open spec fn scored(self) -> bool {
        &&& forall|k: int|
            0 <= k < self.pending.len() ==> self.scores[#[trigger] pending_id(self.pending, k)]
                is Pending
        &&& forall|v: int, i: int|
            0 <= v < self.fleet.len() && 0 <= i < self.fleet[v].holdings().len() ==> (
            self.scores[#[trigger] held_id(self.fleet, v, i)] is Final <==> i
                < self.fleet[v].arrivals.len() && self.fleet[v].arrivals[i]
                < self.fleet[v].holdings()[i]@.latest_finish)
    }

    /// What holds of a simulation at every tick: each vehicle is in order
    /// and sits at the position of its id, every job is known and in
    /// exactly one place, the scores are within bounds, and a score is final
    /// exactly where the ride arrived in time.
    pub open spec fn wf(self) -> bool {
        &&& self.fleet.len() <= i32::MAX
        &&& forall|v: int|
            0 <= v < self.fleet.len() ==> (#[trigger] self.fleet[v]).wf() && self.fleet[v].ready()
                && self.fleet[v].id == v
        &&& self.scores.len() <= JOB_LIMIT
        &&& all_bounded(self.scores)
        &&& self.known_jobs()
        &&& self.distinct_jobs()
        &&& self.pending_sorted()
        &&& self.pending.len() + held(self.fleet) == self.scores.len()
        &&& self.scored()
    }

    /// The rides of every vehicle are recorded in the order of the ticks.
    pub open spec fn in_order(self) -> bool {
        &&& 0 <= self.current_step
        &&& forall|v: int|
            0 <= v < self.fleet.len() ==> (#[trigger] self.fleet[v]).chronological(
                self.current_step as int,
            )
    }

    /// The state after the `k`-th pending job was handed to the vehicle `v`.
    pub open spec fn assign(self, k: int, v: int) -> SchedulerView {
        SchedulerView {
            pending: self.pending.remove(k),
            fleet: self.fleet.update(v, self.fleet[v].queue(self.pending[k])),
            ..self
        }
    }

    /// The rest of a dispatch pass. The pending jobs are scanned in order for
    /// the first that an idle vehicle can serve; it goes to the nearest such
    /// vehicle, and the scan starts again with nothing relaxed. A scan that
    /// finds none relaxes first the start constraint, then the end
    /// constraint. The pass ends when no job is pending or no vehicle idle.
    pub open spec fn dispatch_from(self, relax_start: bool, relax_end: bool) -> SchedulerView
        decreases self.pending.len(), relax_room(relax_start, relax_end),
    {
        if self.pending.len() == 0 || !any_idle(self.fleet) {
            self
        } else {
            match first_match(
                self.fleet,
                self.pending,
                0,
                self.current_step as int,
                relax_start,
                relax_end,
            ) {
                Some((k, v)) => if 0 <= k < self.pending.len() {
                    self.assign(k, v).dispatch_from(false, false)
                } else {
                    self
                },
                None => if !relax_start {
                    self.dispatch_from(true, relax_end)
                } else if !relax_end {
                    self.dispatch_from(true, true)
                } else {
                    self
                },
            }
        }
    }

    /// The state after the dispatch pass of the current tick.
    pub open spec fn dispatch(self) -> SchedulerView {
        self.dispatch_from(false, false)
    }

    /// The state after the vehicle `v` went through the current tick and
    /// what it reported was recorded.
    pub open spec fn tick_vehicle(self, v: int) -> SchedulerView {
        let now = self.current_step as int;
        SchedulerView {
            fleet: self.fleet.update(v, self.fleet[v].tick(now)),
            scores: record(self.scores, self.fleet[v].tick_event(now), now, self.ride_bonus as int),
            ..self
        }
    }

    /// The state after the first `n` vehicles went through the current tick.
    pub open spec fn tick_fleet(self, n: int) -> SchedulerView
        decreases n,
    {
        if n <= 0 {
            self
        } else {
            self.tick_fleet(n - 1).tick_vehicle(n - 1)
        }
    }

    /// The state after the vehicles went through the current tick. In the
    /// first tick no vehicle moves.
    pub open spec fn tick_vehicles(self) -> SchedulerView {
        if self.current_step == 1 {
            self
        } else {
            self.tick_fleet(self.fleet.len() as int)
        }
    }

    /// The state after the tick `t`: the vehicles move, then jobs are
    /// dispatched to those that are idle.
    pub open spec fn step(self, t: TimeStep) -> SchedulerView {
        (SchedulerView { current_step: t, ..self }).tick_vehicles().dispatch()
    }

    /// The state after the ticks from `t` up to, but without, `limit`.
    pub open spec fn run_from(self, t: int, limit: int) -> SchedulerView
        decreases limit - t,
    {
        if t >= limit {
            self
        } else {
            self.step(t as i32).run_from(t + 1, limit)
        }
    }

    /// The state after a whole simulation: the ticks from one up to, but
    /// without, `max_tsteps`.
    pub open spec fn run(self) -> SchedulerView {
        self.run_from(1, self.max_tsteps as int)
    }
}

} // verus!
