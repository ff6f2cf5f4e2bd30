//! The simulation engine: job records, scoring, the spatial index of idle
//! vehicles, the dispatcher and the tick loop.

pub mod input;
pub mod job;
pub mod laws;
pub mod model;
pub mod order;
pub mod output;
pub mod score;
pub mod setup;
pub mod spatial;

pub use self::input::InputError;
pub use self::job::{Job, JobId, JobView, TickComplete};
pub use self::model::SchedulerView;
pub use self::score::{JobScore, ScoreBoard};
pub use self::spatial::SpatialIndex;

use self::input::{numbers_of, parse_record};
use self::laws::{
    lemma_assign_wf, lemma_choice_is, lemma_first_match_valid, lemma_step_frame,
    lemma_tick_vehicle_wf,
};
use self::model::{
    any_idle, choice, eligible, feasible, first_match, nearer, pending_id, relax_room,
};
use self::order::{by_rank, sort_ranked, Ranked};
use self::output::{ids_of, push_line, render, vehicle_line};
use self::score::{total, JOB_LIMIT};
use self::setup::{
    first_fault, initial, input_fault, job_of, lemma_first_fault_found, lemma_initial_wf,
    lemma_job_order, ranked_jobs,
};
use self::spatial::{lemma_nearest_order, nearest_order, ranked_from};
use crate::util::{lemma_manhattan_in_range, Coord, TimeStep};
use crate::vehicle::{lemma_chronological_later, Vehicle, VehicleView};
use vstd::pervasive::unreached;
use vstd::prelude::*;
use vstd::relations::sorted_by;
use vstd::utf8::encode_utf8;

verus! {

/// A simulation: the fleet, the jobs that no vehicle has been given yet, and
/// the scores.
pub struct JobScheduler {
    num_rows: i32,
    num_cols: i32,
    num_vehicles: i32,
    num_jobs: i32,
    ride_bonus: i32,
    max_tsteps: TimeStep,
    current_step: TimeStep,
    fleet: Vec<Vehicle>,
    rem_jobs: Vec<Job>,
    job_scores: ScoreBoard,
}

/// The vehicles of a fleet as mathematical values.
pub open spec fn fleet_view(fleet: Seq<Vehicle>) -> Seq<VehicleView> {
    fleet.map_values(|v: Vehicle| v@)
}

/// The index holds every idle vehicle at the point where it stands, names
/// only vehicles of the fleet, and holds only points in range.
pub open spec fn covers(index: Seq<(Coord, usize)>, fleet: Seq<VehicleView>, upto: int) -> bool {
    &&& forall|e: int|
        0 <= e < index.len() ==> {
            let entry = #[trigger] index[e];
            &&& entry.1 < upto
            &&& entry.0.in_range()
            &&& fleet[entry.1 as int].is_idle() ==> fleet[entry.1 as int].position() == Some(
                entry.0,
            )
        }
    &&& forall|v: int|
        0 <= v < upto && (#[trigger] fleet[v]).is_idle() ==> index.contains(
            (fleet[v].position().unwrap(), v as usize),
        )
}

impl View for JobScheduler {
    type V = SchedulerView;

    closed spec fn view(&self) -> SchedulerView {
        SchedulerView {
            num_rows: self.num_rows,
            num_cols: self.num_cols,
            num_vehicles: self.num_vehicles,
            num_jobs: self.num_jobs,
            ride_bonus: self.ride_bonus,
            max_tsteps: self.max_tsteps,
            current_step: self.current_step,
            fleet: fleet_view(self.fleet@),
            pending: self.rem_jobs@,
            scores: self.job_scores@,
        }
    }
}

/// The bytes of each line.
pub open spec fn bytes_of(lines: Seq<String>) -> Seq<Seq<u8>> {
    lines.map_values(|l: String| encode_utf8(l@))
}

impl JobScheduler {
    /// Sets up the simulation that the lines of an input describe. The
    /// first line gives the grid, the numbers of vehicles and of jobs, the
    /// bonus and the horizon; every other line gives a job.
    pub fn new(lines: &Vec<String>) -> (made: Result<JobScheduler, InputError>)
        ensures
            match made {
                Ok(s) => input_fault(bytes_of(lines@)) is None && s@ == initial(bytes_of(lines@))
                    && s@.wf() && s@.in_order(),
                Err(e) => input_fault(bytes_of(lines@)) == Some(e),
            },
    {
        let ghost input = bytes_of(lines@);
        let count = lines.len();
        if count == 0 {
            return Err(InputError::MissingHeader);
        }
        if count - 1 > JOB_LIMIT {
            return Err(InputError::TooManyJobs);
        }
        let header = match parse_record(lines[0].as_str().as_bytes(), 0) {
            Ok(numbers) => numbers,
            Err(e) => {
                proof {
                    lemma_first_fault_found(input, 0, count as int);
                }
                return Err(e);
            },
        };
        if header[2] < 0 || header[3] < 0 {
            proof {
                lemma_first_fault_found(input, 0, count as int);
            }
            return Err(InputError::NegativeCount);
        }
        let mut jobs: Vec<Job> = Vec::new();
        let mut ranked: Vec<Ranked> = Vec::new();
        let mut i: usize = 1;
        while i < count
            invariant
                1 <= i <= count,
                count == lines@.len(),
                count - 1 <= JOB_LIMIT,
                input == bytes_of(lines@),
                first_fault(input, i as int) is None,
                jobs@.len() == i - 1,
                ranked@.len() == i - 1,
                forall|j: int|
                    0 <= j < i - 1 ==> #[trigger] jobs@[j] == Job::from_view(
                        job_of(numbers_of(input[j + 1]), j as i32),
                    ),
                forall|j: int| 0 <= j < i - 1 ==> #[trigger] ranked@[j] == ranked_jobs(input)[j],
            decreases count - i,
        {
            match parse_record(lines[i].as_str().as_bytes(), i) {
                Ok(numbers) => {
                    let job = Job::new(
                        (i - 1) as i32,
                        Coord::new(numbers[0], numbers[1]),
                        Coord::new(numbers[2], numbers[3]),
                        numbers[4],
                        numbers[5],
                    );
                    if !job.is_in_range() {
                        proof {
                            lemma_first_fault_found(input, i as int, count as int);
                        }
                        return Err(InputError::OutOfRange { line: i });
                    }
                    jobs.push(job);
                    ranked.push((numbers[4], i - 1));
                },
                Err(e) => {
                    proof {
                        lemma_first_fault_found(input, i as int, count as int);
                    }
                    return Err(e);
                },
            }
            i = i + 1;
        }
        proof {
            assert(ranked@ =~= ranked_jobs(input));
            lemma_job_order(input);
            lemma_initial_wf(input);
        }
        let order = sort_ranked(&ranked);
        let mut rem_jobs: Vec<Job> = Vec::new();
        let mut k: usize = 0;
        while k < order.len()
            invariant
                k <= order@.len(),
                order@.len() == jobs@.len(),
                order@ == ranked_jobs(input).sort_by(by_rank()),
                forall|a: int| 0 <= a < order@.len() ==> (#[trigger] order@[a]).1 < order@.len(),
                rem_jobs@.len() == k,
                forall|a: int| 0 <= a < k ==> #[trigger] rem_jobs@[a] == jobs@[order@[a].1 as int],
            decreases order.len() - k,
        {
            rem_jobs.push(jobs[order[k].1]);
            k = k + 1;
        }
        let num_vehicles = header[2];
        let mut fleet: Vec<Vehicle> = Vec::new();
        let mut v: i32 = 0;
        while v < num_vehicles
            invariant
                0 <= v <= num_vehicles,
                fleet@.len() == v,
                forall|a: int| 0 <= a < v ==> (#[trigger] fleet@[a])@ == VehicleView::fresh(a as i32),
            decreases num_vehicles - v,
        {
            fleet.push(Vehicle::new(v));
            v = v + 1;
        }
        let made = JobScheduler {
            num_rows: header[0],
            num_cols: header[1],
            num_vehicles,
            num_jobs: header[3],
            ride_bonus: header[4],
            max_tsteps: header[5],
            current_step: 0,
            fleet,
            rem_jobs,
            job_scores: ScoreBoard::new(count - 1),
        };
        proof {
            assert(made@.fleet =~= initial(input).fleet);
            assert(made@.pending =~= initial(input).pending);
            assert(made@ == initial(input));
        }
        Ok(made)
    }

    /// The assignments as text: one line per vehicle, in the order of the
    /// fleet, with the number of jobs the vehicle took up and their ids.
    pub fn output_as_str(&self) -> (out: String)
        ensures
            out@ == render(self@.fleet),
    {
        let mut out = String::new();
        let mut idx: usize = 0;
        proof {
            assert(self@.fleet.take(0) =~= Seq::<VehicleView>::empty());
        }
        while idx < self.fleet.len()
            invariant
                idx <= self.fleet@.len(),
                self@.fleet == fleet_view(self.fleet@),
                out@ == render(self@.fleet.take(idx as int)),
            decreases self.fleet.len() - idx,
        {
            let rides = self.fleet[idx].assigned_rides();
            let ghost text = out@;
            push_line(&mut out, &rides);
            proof {
                let v = self@.fleet[idx as int];
                assert(rides@ =~= ids_of(v.history));
                assert(self@.fleet.take(idx + 1).drop_last() =~= self@.fleet.take(idx as int));
                assert(self@.fleet.take(idx + 1).last() == v);
                assert(out@ =~= text + vehicle_line(v));
            }
            idx = idx + 1;
        }
        proof {
            assert(self@.fleet.take(idx as int) =~= self@.fleet);
        }
        out
    }

    /// Moves every vehicle through the current tick, records what each
    /// reports, and returns the index of the vehicles that are idle after
    /// it. In the first tick no vehicle moves.
    fn tick_vehicles(&mut self) -> (idle: SpatialIndex)
        requires
            old(self)@.wf(),
            old(self)@.current_step >= 0,
        ensures
            final(self)@ == old(self)@.tick_vehicles(),
            final(self)@.wf(),
            old(self)@.in_order() ==> final(self)@.in_order(),
            covers(idle@, final(self)@.fleet, final(self)@.fleet.len() as int),
    {
        let mut idle = SpatialIndex::new();
        let n = self.fleet.len();
        let mut i: usize = 0;
        while i < n
            invariant
                i <= n,
                n == self.fleet@.len(),
                old(self)@.wf(),
                old(self)@.current_step >= 0,
                self@ == (if old(self)@.current_step == 1 {
                    old(self)@
                } else {
                    old(self)@.tick_fleet(i as int)
                }),
                self@.wf(),
                self@.current_step == old(self)@.current_step,
                self@.fleet.len() == n,
                old(self)@.in_order() ==> self@.in_order(),
                covers(idle@, self@.fleet, i as int),
            decreases n - i,
        {
            let ghost before = self@;
            if self.current_step != 1 {
                proof {
                    lemma_tick_vehicle_wf(before, i as int);
                    assert(before.fleet[i as int].wf());
                }
                let result = self.fleet[i].tick(self.current_step);
                self.job_scores.record(&result, self.current_step, self.ride_bonus);
                proof {
                    assert(self@.fleet =~= before.tick_vehicle(i as int).fleet);
                    assert(self@ == before.tick_vehicle(i as int));
                }
            }
            proof {
                assert(self@.fleet[i as int].wf());
                assert forall|v: int| 0 <= v < i implies self@.fleet[v] == before.fleet[v] by {}
            }
            if self.fleet[i].is_idle() {
                let coord = self.fleet[i].current_pos().unwrap();
                let ghost entries = idle@;
                idle.add(coord, i);
                proof {
                    assert(coord.in_range());
                    assert(idle@[entries.len() as int] == (coord, i));
                    assert forall|v: int|
                        0 <= v < i + 1 && (#[trigger] self@.fleet[v]).is_idle() implies idle@.contains(
                        (self@.fleet[v].position().unwrap(), v as usize),
                    ) by {
                        if v < i {
                            let p = (before.fleet[v].position().unwrap(), v as usize);
                            assert(entries.contains(p));
                            let e = choose|e: int| 0 <= e < entries.len() && entries[e] == p;
                            assert(idle@[e] == p);
                        }
                    }
                    assert forall|e: int| 0 <= e < idle@.len() implies {
                        let entry = #[trigger] idle@[e];
                        &&& entry.1 < i + 1
                        &&& entry.0.in_range()
                        &&& self@.fleet[entry.1 as int].is_idle() ==> self@.fleet[entry.1 as int].position()
                            == Some(entry.0)
                    } by {
                        if e < entries.len() {
                            assert(idle@[e] == entries[e]);
                        }
                    }
                }
            } else {
                proof {
                    assert forall|e: int| 0 <= e < idle@.len() implies {
                        let entry = #[trigger] idle@[e];
                        &&& entry.1 < i + 1
                        &&& entry.0.in_range()
                        &&& self@.fleet[entry.1 as int].is_idle() ==> self@.fleet[entry.1 as int].position()
                            == Some(entry.0)
                    } by {}
                }
            }
            i = i + 1;
        }
        idle
    }

    /// Whether a vehicle standing at `pos` can serve `job` from the current
    /// tick on.
    fn is_feasible(&self, pos: &Coord, job: &Job, relax_start: bool, relax_end: bool) -> (ok: bool)
        requires
            pos.in_range(),
            job@.in_range(),
        ensures
            ok == feasible(*pos, job@, self@.current_step as int, relax_start, relax_end),
    {
        proof {
            lemma_manhattan_in_range(*pos, job@.start);
            lemma_manhattan_in_range(job@.start, job@.end);
        }
        let now = self.current_step as i64;
        let dist_to_start = pos.dist(&job.start()) as i64;
        let tot_dist = dist_to_start + job.dist() as i64;
        (relax_end || now + tot_dist < job.latest_finish() as i64) && (relax_start || now
            + dist_to_start < job.earliest_start() as i64)
    }

    /// Goes through the indexed vehicles from the nearest to the start of
    /// `job` on and returns the first that is idle and can serve the job,
    /// and whether any idle vehicle was met.
    fn choose_vehicle(
        &self,
        job: &Job,
        idle_vehicles: &SpatialIndex,
        relax_start: bool,
        relax_end: bool,
    ) -> (found: (Option<usize>, bool))
        requires
            self@.wf(),
            covers(idle_vehicles@, self@.fleet, self@.fleet.len() as int),
            job@.in_range(),
        ensures
            found.0 matches Some(v) ==> v < self@.fleet.len() && self@.fleet[v as int].is_idle()
                && choice(self@.fleet, job@, self@.current_step as int, relax_start, relax_end)
                == Some(v as int),
            found.0 is None ==> choice(
                self@.fleet,
                job@,
                self@.current_step as int,
                relax_start,
                relax_end,
            ) is None,
            found.0 is None ==> found.1 == any_idle(self@.fleet),
    {
        let ghost fleet = self@.fleet;
        let ghost now = self@.current_step as int;
        let ghost index = idle_vehicles@;
        let ghost ranked = ranked_from(index, job@.start);
        assert(idle_vehicles.wf());
        let order = idle_vehicles.nearest(&job.start());
        proof {
            lemma_nearest_order(index, job@.start);
        }
        let mut seen = false;
        let mut c: usize = 0;
        while c < order.len()
            invariant
                c <= order@.len(),
                self@.wf(),
                self@.fleet == fleet,
                self@.current_step as int == now,
                fleet.len() == self.fleet@.len(),
                fleet == fleet_view(self.fleet@),
                idle_vehicles@ == index,
                covers(index, fleet, fleet.len() as int),
                job@.in_range(),
                ranked == ranked_from(index, job@.start),
                order@ == nearest_order(index, job@.start),
                sorted_by(order@, by_rank()),
                order@.len() == index.len(),
                forall|i: int| 0 <= i < index.len() ==> order@.contains(#[trigger] ranked[i]),
                forall|k: int| 0 <= k < index.len() ==> ranked.contains(#[trigger] order@[k]),
                forall|k: int|
                    0 <= k < c ==> !eligible(
                        fleet,
                        (#[trigger] order@[k]).1 as int,
                        job@,
                        now,
                        relax_start,
                        relax_end,
                    ),
                seen == exists|k: int| 0 <= k < c && fleet[(#[trigger] order@[k]).1 as int].is_idle(),
            decreases order.len() - c,
        {
            let entry = order[c];
            let v = entry.1;
            proof {
                assert(ranked.contains(order@[c as int]));
                let e = choose|e: int| 0 <= e < ranked.len() && ranked[e] == order@[c as int];
                assert(index[e].1 == v);
                assert(v < fleet.len());
            }
            if self.fleet[v].is_idle() {
                seen = true;
                assert(fleet[v as int].wf());
                let pos = self.fleet[v].current_pos().unwrap();
                if self.is_feasible(&pos, job, relax_start, relax_end) {
                    proof {
                        assert(eligible(fleet, v as int, job@, now, relax_start, relax_end));
                        assert forall|u: int| #[trigger]
                            eligible(fleet, u, job@, now, relax_start, relax_end) implies nearer(
                            fleet,
                            v as int,
                            u,
                            job@.start,
                        ) by {
                            let pu = fleet[u].position().unwrap();
                            assert(index.contains((pu, u as usize)));
                            let eu = choose|eu: int|
                                0 <= eu < index.len() && index[eu] == (pu, u as usize);
                            assert(order@.contains(ranked[eu]));
                            let ku = choose|ku: int|
                                0 <= ku < order@.len() && order@[ku] == ranked[eu];
                            assert(order@[ku].1 as int == u);
                            lemma_manhattan_in_range(pu, job@.start);
                            let e = choose|e: int|
                                0 <= e < ranked.len() && ranked[e] == order@[c as int];
                            assert(index[e].0 == pos);
                            if ku > c {
                                let r = by_rank();
                                assert(r(order@[c as int], order@[ku]));
                            }
                        }
                        lemma_choice_is(fleet, v as int, job@, now, relax_start, relax_end);
                    }
                    return (Some(v), true);
                }
            }
            proof {
                assert(exists|k: int| 0 <= k < c + 1 && fleet[(#[trigger] order@[k]).1 as int].is_idle()
                    == seen) by {
                    if seen {
                        if fleet[v as int].is_idle() {
                            assert(fleet[order@[c as int].1 as int].is_idle());
                        } else {
                            let k = choose|k: int|
                                0 <= k < c && fleet[(#[trigger] order@[k]).1 as int].is_idle();
                            assert(fleet[order@[k].1 as int].is_idle());
                        }
                    } else {
                        assert(!fleet[order@[c as int].1 as int].is_idle());
                    }
                }
            }
            c = c + 1;
        }
        proof {
            assert forall|u: int| !eligible(fleet, u, job@, now, relax_start, relax_end) by {
                if eligible(fleet, u, job@, now, relax_start, relax_end) {
                    let pu = fleet[u].position().unwrap();
                    assert(index.contains((pu, u as usize)));
                    let eu = choose|eu: int| 0 <= eu < index.len() && index[eu] == (pu, u as usize);
                    assert(order@.contains(ranked[eu]));
                    let ku = choose|ku: int| 0 <= ku < order@.len() && order@[ku] == ranked[eu];
                    assert(order@[ku].1 as int == u);
                }
            }
            if any_idle(fleet) {
                let u = choose|u: int| 0 <= u < fleet.len() && (#[trigger] fleet[u]).is_idle();
                let pu = fleet[u].position().unwrap();
                assert(index.contains((pu, u as usize)));
                let eu = choose|eu: int| 0 <= eu < index.len() && index[eu] == (pu, u as usize);
                assert(order@.contains(ranked[eu]));
                let ku = choose|ku: int| 0 <= ku < order@.len() && order@[ku] == ranked[eu];
                assert(fleet[order@[ku].1 as int].is_idle());
            }
        }
        (None, seen)
    }

    /// Scans the pending jobs in order for the first that an idle vehicle
    /// can serve. Returns its position with the vehicle to serve it, and
    /// whether the scan met any idle vehicle.
    fn seek(&self, idle_vehicles: &SpatialIndex, relax_start: bool, relax_end: bool) -> (found: (
        Option<(usize, usize)>,
        bool,
    ))
        requires
            self@.wf(),
            covers(idle_vehicles@, self@.fleet, self@.fleet.len() as int),
        ensures
            found.0 matches Some((k, v)) ==> k < self@.pending.len() && v < self@.fleet.len()
                && self@.fleet[v as int].is_idle() && first_match(
                self@.fleet,
                self@.pending,
                0,
                self@.current_step as int,
                relax_start,
                relax_end,
            ) == Some((k as int, v as int)),
            found.0 is None ==> first_match(
                self@.fleet,
                self@.pending,
                0,
                self@.current_step as int,
                relax_start,
                relax_end,
            ) is None,
            found.0 is None ==> found.1 == (self@.pending.len() > 0 && any_idle(self@.fleet)),
    {
        let ghost fleet = self@.fleet;
        let ghost pending = self@.pending;
        let ghost now = self@.current_step as int;
        let mut seen = false;
        let mut k: usize = 0;
        while k < self.rem_jobs.len()
            invariant
                k <= self.rem_jobs@.len(),
                self@.wf(),
                self@.fleet == fleet,
                self@.pending == pending,
                pending == self.rem_jobs@,
                self@.current_step as int == now,
                covers(idle_vehicles@, fleet, fleet.len() as int),
                first_match(fleet, pending, k as int, now, relax_start, relax_end) == first_match(
                    fleet,
                    pending,
                    0,
                    now,
                    relax_start,
                    relax_end,
                ),
                seen == (k > 0 && any_idle(fleet)),
            decreases self.rem_jobs.len() - k,
        {
            proof {
                assert(pending_id(pending, k as int) >= 0);
                assert(pending[k as int]@.in_range());
            }
            let job = self.rem_jobs[k];
            let chosen = self.choose_vehicle(&job, idle_vehicles, relax_start, relax_end);
            match chosen.0 {
                Some(v) => {
                    return (Some((k, v)), true);
                },
                None => {
                    seen = chosen.1;
                },
            }
            k = k + 1;
        }
        (None, seen)
    }

    /// The dispatch pass of the current tick: hands pending jobs to idle
    /// vehicles, relaxing the constraints where no vehicle can keep them,
    /// until no job is pending or no vehicle idle.
    fn funky_scheduling(&mut self, idle_vehicles: &SpatialIndex)
        requires
            old(self)@.wf(),
            covers(idle_vehicles@, old(self)@.fleet, old(self)@.fleet.len() as int),
        ensures
            final(self)@ == old(self)@.dispatch(),
            final(self)@.wf(),
            old(self)@.in_order() ==> final(self)@.in_order(),
            final(self)@.pending.len() == 0 || !any_idle(final(self)@.fleet),
            final(self)@.current_step == old(self)@.current_step,
    {
        if idle_vehicles.size() > 0 {
            let mut relax_start = false;
            let mut relax_end = false;
            loop
                invariant
                    self@.wf(),
                    covers(idle_vehicles@, self@.fleet, self@.fleet.len() as int),
                    self@.dispatch_from(relax_start, relax_end) == old(self)@.dispatch(),
                    old(self)@.in_order() ==> self@.in_order(),
                    self@.current_step == old(self)@.current_step,
                    self@.pending == self.rem_jobs@,
                    self@.fleet == fleet_view(self.fleet@),
                ensures
                    self@ == old(self)@.dispatch(),
                    self@.wf(),
                    old(self)@.in_order() ==> self@.in_order(),
                    self@.pending.len() == 0 || !any_idle(self@.fleet),
                    self@.current_step == old(self)@.current_step,
                decreases self.rem_jobs@.len(), relax_room(relax_start, relax_end),
            {
                let ghost before = self@;
                let found = self.seek(idle_vehicles, relax_start, relax_end);
                proof {
                    lemma_first_match_valid(
                        before.fleet,
                        before.pending,
                        0,
                        before.current_step as int,
                        relax_start,
                        relax_end,
                    );
                }
                match found.0 {
                    Some((k, v)) => {
                        proof {
                            lemma_assign_wf(before, k as int, v as int);
                            assert(any_idle(before.fleet));
                        }
                        let assigned = self.rem_jobs.remove(k);
                        self.fleet[v].queue_new_job(assigned);
                        relax_start = false;
                        relax_end = false;
                        proof {
                            assert(self@.fleet =~= before.assign(k as int, v as int).fleet);
                            assert(self@ == before.assign(k as int, v as int));
                            assert forall|u: int|
                                0 <= u < self@.fleet.len() && (#[trigger] self@.fleet[u]).is_idle() implies idle_vehicles@.contains(
                            (self@.fleet[u].position().unwrap(), u as usize)) by {
                                assert(before.fleet[u].is_idle());
                            }
                        }
                    },
                    None => {
                        if found.1 {
                            if !relax_start {
                                relax_start = true;
                            } else if !relax_end {
                                relax_end = true;
                            } else {
                                proof {
                                    let u = choose|u: int|
                                        0 <= u < before.fleet.len() && (
                                        #[trigger] before.fleet[u]).is_idle();
                                    assert(eligible(
                                        before.fleet,
                                        u,
                                        before.pending[0]@,
                                        before.current_step as int,
                                        true,
                                        true,
                                    ));
                                    assert(choice(
                                        before.fleet,
                                        before.pending[0]@,
                                        before.current_step as int,
                                        true,
                                        true,
                                    ) is Some);
                                }
                                unreached::<()>();
                            }
                        } else {
                            break;
                        }
                    },
                }
            }
        } else {
            proof {
                if any_idle(self@.fleet) {
                    let u = choose|u: int|
                        0 <= u < self@.fleet.len() && (#[trigger] self@.fleet[u]).is_idle();
                    assert(idle_vehicles@.contains((self@.fleet[u].position().unwrap(), u as usize)));
                }
            }
        }
    }

    /// Simulates the tick `step`: the vehicles move, then jobs are
    /// dispatched to those that are idle. After it, a job is pending only
    /// if no vehicle is idle.
    pub fn step(&mut self, step: TimeStep)
        requires
            old(self)@.wf(),
            step >= 0,
        ensures
            final(self)@ == old(self)@.step(step),
            final(self)@.wf(),
            final(self)@.current_step == step,
            final(self)@.max_tsteps == old(self)@.max_tsteps,
            old(self)@.in_order() && old(self)@.current_step <= step ==> final(self)@.in_order(),
            final(self)@.pending.len() == 0 || !any_idle(final(self)@.fleet),
    {
        let ghost before = self@;
        self.current_step = step;
        proof {
            let now = SchedulerView { current_step: step, ..before };
            assert(self@ == now);
            assert(now.wf());
            if before.in_order() && before.current_step <= step {
                assert forall|v: int| 0 <= v < now.fleet.len() implies (
                #[trigger] now.fleet[v]).chronological(step as int) by {
                    lemma_chronological_later(
                        before.fleet[v],
                        before.current_step as int,
                        step as int,
                    );
                }
            }
        }
        let idle_vehicles = self.tick_vehicles();
        self.funky_scheduling(&idle_vehicles);
        proof {
            lemma_step_frame(before, step);
        }
    }

    /// Runs the whole simulation: the ticks from one up to, but without,
    /// `max_tsteps`. Where any tick was simulated, a job is still pending
    /// only if no vehicle is idle.
    pub fn run(&mut self)
        requires
            old(self)@.wf(),
        ensures
            final(self)@ == old(self)@.run(),
            final(self)@.wf(),
            old(self)@.in_order() && old(self)@.current_step <= 1 ==> final(self)@.in_order(),
            old(self)@.max_tsteps > 1 ==> final(self)@.pending.len() == 0 || !any_idle(
                final(self)@.fleet,
            ),
    {
        let limit = self.max_tsteps;
        let mut step: TimeStep = 1;
        while step < limit
            invariant
                1 <= step,
                limit > 1 ==> step <= limit,
                limit == old(self)@.max_tsteps,
                self@.max_tsteps == limit,
                self@.wf(),
                self@.run_from(step as int, limit as int) == old(self)@.run(),
                old(self)@.in_order() && old(self)@.current_step <= 1 ==> self@.in_order()
                    && self@.current_step <= step,
                step > 1 ==> self@.pending.len() == 0 || !any_idle(self@.fleet),
            decreases limit - step,
        {
            self.step(step);
            step = step + 1;
        }
    }

    /// Sum of the final, positive scores.
    pub fn calculate_score(&self) -> (score: u64)
        requires
            self@.wf(),
        ensures
            score == total(self@.scores),
    {
        self.job_scores.total()
    }

    /// Number of vehicles.
    pub fn fleet_size(&self) -> (n: usize)
        ensures
            n == self@.fleet.len(),
    {
        self.fleet.len()
    }

    /// The vehicle with the id `idx`, if there is one.
    pub fn vehicle(&self, idx: usize) -> (v: Option<&Vehicle>)
        ensures
            match v {
                Some(vehicle) => idx < self@.fleet.len() && vehicle@ == self@.fleet[idx as int],
                None => idx >= self@.fleet.len(),
            },
    {
        if idx < self.fleet.len() {
            Some(&self.fleet[idx])
        } else {
            None
        }
    }

    /// Number of jobs that no vehicle has been given yet.
    pub fn remaining_jobs(&self) -> (n: usize)
        ensures
            n == self@.pending.len(),
    {
        self.rem_jobs.len()
    }

    /// The `k`-th of the jobs that no vehicle has been given yet.
    pub fn pending_job(&self, k: usize) -> (job: Option<Job>)
        ensures
            job == (if k < self@.pending.len() {
                Some(self@.pending[k as int])
            } else {
                None
            }),
    {
        if k < self.rem_jobs.len() {
            Some(self.rem_jobs[k])
        } else {
            None
        }
    }

    /// The score of the job `id`, if there is such a job.
    pub fn score_of(&self, id: JobId) -> (entry: Option<JobScore>)
        ensures
            entry == (if 0 <= id < self@.scores.len() {
                Some(self@.scores[id as int])
            } else {
                None
            }),
    {
        self.job_scores.get(id)
    }

    /// The tick that was simulated last; zero before the first.
    pub fn current_step(&self) -> (t: TimeStep)
        ensures
            t == self@.current_step,
    {
        self.current_step
    }

    /// The horizon: the first tick that is not simulated.
    pub fn max_steps(&self) -> (t: TimeStep)
        ensures
            t == self@.max_tsteps,
    {
        self.max_tsteps
    }

    /// What a ride earns on top of its length for leaving on time.
    pub fn ride_bonus(&self) -> (bonus: i32)
        ensures
            bonus == self@.ride_bonus,
    {
        self.ride_bonus
    }
}

} // verus!
