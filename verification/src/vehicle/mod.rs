//! The ride state machine of a single vehicle.

use crate::scheduler::job::{Job, JobId, TickComplete};
use crate::util::{lemma_manhattan_in_range, manhattan, origin, Coord, TimeStep};
use vstd::prelude::*;

verus! {

/// The phase of a ride a vehicle is in.
#[derive(PartialEq, Copy, Clone, Hash, Eq, Structural, Debug)]
pub enum RideTaskType {
    DrivingToStart,
    WaitingAtStart,
    DrivingToEnd,
}

/// A phase of a ride together with the ticks it still takes.
#[derive(Copy, Clone, Debug)]
pub struct RideTask {
    pub task_type: RideTaskType,
    pub rem_steps: TimeStep,
}

impl RideTask {
    pub fn new(task_type: RideTaskType, rem_steps: TimeStep) -> (task: RideTask)
        ensures
            task == (RideTask { task_type, rem_steps }),
    {
        RideTask { task_type, rem_steps }
    }

    /// No tick is left in this phase.
    pub open spec fn done(self) -> bool {
        self.rem_steps == 0
    }

    /// Spends one tick on the phase and says whether that was its last.
    pub fn step(&mut self) -> (finished: bool)
        requires
            old(self).rem_steps > 0,
        ensures
            *final(self) == (RideTask { rem_steps: (old(self).rem_steps - 1) as i32, ..*old(self) }),
            finished == final(self).done(),
    {
        self.rem_steps = self.rem_steps - 1;
        self.is_idle()
    }

    pub fn is_idle(&self) -> (b: bool)
        ensures
            b == self.done(),
    {
        self.rem_steps == 0
    }

    pub fn has_arrived_at_start(&self) -> (b: bool)
        ensures
            b == (self.task_type == RideTaskType::DrivingToStart && self.done()),
    {
        self.task_type == RideTaskType::DrivingToStart && self.is_idle()
    }

    pub fn is_done_waiting(&self) -> (b: bool)
        ensures
            b == (self.task_type == RideTaskType::WaitingAtStart && self.done()),
    {
        self.task_type == RideTaskType::WaitingAtStart && self.is_idle()
    }

    pub fn has_arrived_at_dest(&self) -> (b: bool)
        ensures
            b == (self.task_type == RideTaskType::DrivingToEnd && self.done()),
    {
        self.task_type == RideTaskType::DrivingToEnd && self.is_idle()
    }

    pub fn task_type(&self) -> (t: RideTaskType)
        ensures
            t == self.task_type,
    {
        self.task_type
    }
}

/// The number of a vehicle: its position in the fleet.
pub type VehicleId = i32;

/// A vehicle: the jobs it has taken up, the phase of the ride it is on, and
/// at most one job handed to it that it has not taken up yet.
pub struct Vehicle {
    id: VehicleId,
    jobs: Vec<Job>,
    task: Option<RideTask>,
    job_buffer: Option<Job>,
    departures: Vec<TimeStep>,
    arrivals: Vec<TimeStep>,
}

/// The state of a vehicle as mathematical values.
pub struct VehicleView {
    pub id: VehicleId,
    /// The jobs taken up so far, oldest first; the last one is the current.
    pub history: Seq<Job>,
    /// The phase of the current ride; `None` before the first job.
    pub task: Option<RideTask>,
    /// The job waiting to be taken up at the next tick.
    pub buffer: Option<Job>,
    /// For each ride that has left its start point, the tick at which it did.
    pub departures: Seq<TimeStep>,
    /// For each ride that has reached its end point, the tick at which it did.
    pub arrivals: Seq<TimeStep>,
}

/// The phase a vehicle standing at `pos` enters at tick `now` for a job
/// from `start` to `end` that may begin at `earliest_start`: it drives to
/// the start if it is elsewhere, leaves for the end if the job may begin,
/// and waits otherwise.
pub open spec fn build_task(
    pos: Coord,
    start: Coord,
    end: Coord,
    earliest_start: int,
    now: int,
) -> RideTask {
    let to_start = manhattan(pos, start);
    if to_start > 0 {
        RideTask { task_type: RideTaskType::DrivingToStart, rem_steps: to_start as i32 }
    } else if now >= earliest_start {
        RideTask { task_type: RideTaskType::DrivingToEnd, rem_steps: manhattan(start, end) as i32 }
    } else {
        RideTask { task_type: RideTaskType::WaitingAtStart, rem_steps: (earliest_start - now) as i32 }
    }
}

impl VehicleView {
    /// A vehicle that has not been given anything yet.
    pub open spec fn fresh(id: VehicleId) -> VehicleView {
        VehicleView {
            id,
            history: Seq::empty(),
            task: None,
            buffer: None,
            departures: Seq::empty(),
            arrivals: Seq::empty(),
        }
    }

    /// The current ride has reached its end point.
    pub open spec fn finished(self) -> bool {
        self.task matches Some(t) && t.task_type == RideTaskType::DrivingToEnd && t.done()
            && self.arrivals.len() == self.history.len()
    }

    /// The state a vehicle is in between two ticks: a phase exists exactly
    /// when a job was taken up, a phase with no tick left is an arrival, and
    /// each ride but the current one has both left and arrived.
    pub open spec fn wf(self) -> bool {
        &&& forall|i: int| 0 <= i < self.history.len() ==> (#[trigger] self.history[i])@.in_range()
        &&& self.buffer matches Some(j) ==> j@.in_range()
        &&& match self.task {
            None => self.history.len() == 0 && self.departures.len() == 0 && self.arrivals.len()
                == 0,
            Some(t) => {
                &&& self.history.len() > 0
                &&& t.rem_steps >= 0
                &&& match t.task_type {
                    RideTaskType::DrivingToEnd => {
                        &&& self.departures.len() == self.history.len()
                        &&& self.arrivals.len() == if t.done() {
                            self.history.len()
                        } else {
                            (self.history.len() - 1) as nat
                        }
                    },
                    _ => {
                        &&& !t.done()
                        &&& self.departures.len() == self.history.len() - 1
                        &&& self.arrivals.len() == self.history.len() - 1
                    },
                }
            },
        }
    }

    /// Where the vehicle stands: the origin before its first job, the start
    /// of its job while it waits there or once it has driven there, the end
    /// of its job once it has driven there, and nowhere in particular while
    /// it drives.
    pub open spec fn position(self) -> Option<Coord> {
        match self.task {
            None => Some(origin()),
            Some(t) => match t.task_type {
                RideTaskType::WaitingAtStart => Some(self.history.last()@.start),
                RideTaskType::DrivingToStart => if t.done() {
                    Some(self.history.last()@.start)
                } else {
                    None
                },
                RideTaskType::DrivingToEnd => if t.done() {
                    Some(self.history.last()@.end)
                } else {
                    None
                },
            },
        }
    }

    /// No ride is under way: the vehicle has not taken up a job yet, or
    /// has reached the end of the last it took up.
    pub open spec fn at_rest(self) -> bool {
        self.task matches Some(t) ==> t.task_type == RideTaskType::DrivingToEnd && t.done()
    }

    /// No job is waiting and no ride is under way.
    pub open spec fn is_idle(self) -> bool {
        self.buffer is None && self.at_rest()
    }

    /// A job that waits can be taken up: no ride is under way.
    pub open spec fn ready(self) -> bool {
        self.buffer is Some ==> self.at_rest()
    }

    /// The jobs the vehicle holds: those it took up, then the one waiting.
    pub open spec fn holdings(self) -> Seq<Job> {
        match self.buffer {
            Some(job) => self.history.push(job),
            None => self.history,
        }
    }

    /// The vehicle with `job` handed to it.
    pub open spec fn queue(self, job: Job) -> VehicleView {
        VehicleView { buffer: Some(job), ..self }
    }

    /// First part of a tick: the waiting job, if any, becomes the current one.
    pub open spec fn load(self, now: int) -> VehicleView {
        match self.buffer {
            None => self,
            Some(job) => {
                let task = build_task(
                    self.position().unwrap(),
                    job@.start,
                    job@.end,
                    job@.earliest_start as int,
                    now,
                );
                VehicleView {
                    history: self.history.push(job),
                    task: Some(task),
                    buffer: None,
                    departures: if task.task_type == RideTaskType::DrivingToEnd {
                        self.departures.push(now as i32)
                    } else {
                        self.departures
                    },
                    ..self
                }
            },
        }
    }

    /// Second part of a tick: a phase with ticks left spends one.
    pub open spec fn advance(self) -> VehicleView {
        match self.task {
            Some(t) => if t.rem_steps > 0 {
                VehicleView {
                    task: Some(RideTask { rem_steps: (t.rem_steps - 1) as i32, ..t }),
                    ..self
                }
            } else {
                self
            },
            None => self,
        }
    }

    /// Last part of a tick: a phase with no tick left gives way to the next.
    /// Having reached the start, the vehicle waits or leaves; having waited,
    /// it leaves; having reached the end, its ride is over.
    pub open spec fn settle(self, now: int) -> VehicleView {
        match self.task {
            Some(t) => if t.done() && !self.finished() {
                let job = self.history.last()@;
                match t.task_type {
                    RideTaskType::DrivingToStart => {
                        let next = build_task(job.start, job.start, job.end, job.earliest_start as int, now);
                        VehicleView {
                            task: Some(next),
                            departures: if next.task_type == RideTaskType::DrivingToEnd {
                                self.departures.push(now as i32)
                            } else {
                                self.departures
                            },
                            ..self
                        }
                    },
                    RideTaskType::WaitingAtStart => VehicleView {
                        task: Some(
                            RideTask {
                                task_type: RideTaskType::DrivingToEnd,
                                rem_steps: job.length() as i32,
                            },
                        ),
                        departures: self.departures.push(now as i32),
                        ..self
                    },
                    RideTaskType::DrivingToEnd => VehicleView {
                        arrivals: self.arrivals.push(now as i32),
                        ..self
                    },
                }
            } else {
                self
            },
            None => self,
        }
    }

    /// The vehicle after the tick `now`. A ride of length zero is over in the
    /// tick in which it begins, hence the second `settle`.
    pub open spec fn tick(self, now: int) -> VehicleView {
        self.load(now).advance().settle(now).settle(now)
    }

    /// What the vehicle reports of the tick `now`: an arrival if there was
    /// one, else a departure if there was one, else nothing.
    pub open spec fn tick_event(self, now: int) -> TickComplete {
        let after = self.tick(now);
        let job = after.history.last()@;
        if after.arrivals.len() > self.arrivals.len() {
            TickComplete::JobComplete(job.id, job.latest_finish, job.end)
        } else if after.departures.len() > self.departures.len() {
            TickComplete::JobStart(job.id, job.length() as i32, job.earliest_start)
        } else {
            TickComplete::Continue
        }
    }

    /// Every recorded tick is at most `now`, each ride arrives no earlier
    /// than it left, and leaves no earlier than the ride before it arrived.
    pub open spec fn chronological(self, now: int) -> bool {
        &&& forall|i: int| 0 <= i < self.departures.len() ==> #[trigger] self.departures[i] <= now
        &&& forall|i: int|
            0 <= i < self.arrivals.len() && i < self.departures.len() ==> self.departures[i]
                <= #[trigger] self.arrivals[i] <= now
        &&& forall|i: int|
            0 <= i < self.arrivals.len() && i + 1 < self.departures.len()
                ==> #[trigger] self.arrivals[i] <= self.departures[i + 1]
    }
}

impl View for Vehicle {
    type V = VehicleView;

    closed spec fn view(&self) -> VehicleView {
        VehicleView {
            id: self.id,
            history: self.jobs@,
            task: self.task,
            buffer: self.job_buffer,
            departures: self.departures@,
            arrivals: self.arrivals@,
        }
    }
}

impl Vehicle {
    pub fn new(id: VehicleId) -> (v: Vehicle)
        ensures
            v@ == VehicleView::fresh(id),
            v@.wf(),
            v@.is_idle(),
    {
        Vehicle {
            id,
            jobs: Vec::new(),
            task: None,
            job_buffer: None,
            departures: Vec::new(),
            arrivals: Vec::new(),
        }
    }

    pub fn id(&self) -> (id: VehicleId)
        ensures
            id == self@.id,
    {
        self.id
    }

    fn current_task(&self) -> (t: Option<RideTask>)
        ensures
            t == self@.task,
    {
        self.task
    }

    fn current_job(&self) -> (j: Option<Job>)
        ensures
            j == (if self@.history.len() > 0 {
                Some(self@.history.last())
            } else {
                None
            }),
    {
        let n = self.jobs.len();
        if n > 0 {
            Some(self.jobs[n - 1])
        } else {
            None
        }
    }

    /// Where the vehicle stands, if it stands anywhere in particular.
    pub fn current_pos(&self) -> (p: Option<Coord>)
        requires
            self@.task is Some ==> self@.history.len() > 0,
        ensures
            p == self@.position(),
    {
        match self.current_task() {
            Some(t) => {
                let job = self.jobs[self.jobs.len() - 1];
                match t.task_type() {
                    RideTaskType::WaitingAtStart => Some(job.start()),
                    RideTaskType::DrivingToStart => if t.is_idle() {
                        Some(job.start())
                    } else {
                        None
                    },
                    RideTaskType::DrivingToEnd => if t.is_idle() {
                        Some(job.end())
                    } else {
                        None
                    },
                }
            },
            None => Some(Coord::default()),
        }
    }

    pub fn is_idle(&self) -> (b: bool)
        ensures
            b == self@.is_idle(),
    {
        self.job_buffer.is_none() && match self.current_task() {
            Some(t) => t.has_arrived_at_dest(),
            None => true,
        }
    }

    /// Replaces the current phase by the one that the vehicle enters, from
    /// where it stands, for a job with the given end points and earliest
    /// start, and returns the kind of that phase.
    fn add_job_task(
        &mut self,
        job_start: Coord,
        job_end: Coord,
        job_earliest_start: TimeStep,
        current_step: TimeStep,
    ) -> (kind: RideTaskType)
        requires
            old(self)@.task is Some ==> old(self)@.history.len() > 0,
            old(self)@.position() matches Some(p) && p.in_range(),
            job_start.in_range(),
            job_end.in_range(),
            current_step >= 0,
        ensures
            final(self)@ == (VehicleView {
                task: Some(
                    build_task(
                        old(self)@.position().unwrap(),
                        job_start,
                        job_end,
                        job_earliest_start as int,
                        current_step as int,
                    ),
                ),
                ..old(self)@
            }),
            kind == final(self)@.task.unwrap().task_type,
    {
        let cur_pos = self.current_pos().unwrap();
        proof {
            lemma_manhattan_in_range(cur_pos, job_start);
            lemma_manhattan_in_range(job_start, job_end);
        }
        let dist_to_start = cur_pos.dist(&job_start);
        let task = if dist_to_start > 0 {
            RideTask::new(RideTaskType::DrivingToStart, dist_to_start)
        } else if current_step >= job_earliest_start {
            RideTask::new(RideTaskType::DrivingToEnd, job_start.dist(&job_end))
        } else {
            RideTask::new(RideTaskType::WaitingAtStart, job_earliest_start - current_step)
        };
        self.task = Some(task);
        task.task_type()
    }

    /// Hands the vehicle a job to take up at its next tick.
    pub fn queue_new_job(&mut self, job: Job)
        requires
            old(self)@.buffer is None,
        ensures
            final(self)@ == old(self)@.queue(job),
    {
        self.job_buffer = Some(job);
    }

    /// First part of a tick: takes up the waiting job, if there is one.
    fn load(&mut self, current_step: TimeStep)
        requires
            old(self)@.wf(),
            old(self)@.ready(),
            current_step >= 0,
        ensures
            final(self)@ == old(self)@.load(current_step as int),
            final(self)@.task matches Some(t) ==> t.rem_steps >= 0,
    {
        match self.job_buffer {
            Some(job) => {
                self.job_buffer = None;
                let kind = self.add_job_task(
                    job.start(),
                    job.end(),
                    job.earliest_start(),
                    current_step,
                );
                self.jobs.push(job);
                if kind == RideTaskType::DrivingToEnd {
                    self.departures.push(current_step);
                }
            },
            None => {},
        }
    }

    /// Second part of a tick: spends one tick on a phase that has any left.
    fn advance(&mut self)
        requires
            old(self)@.task matches Some(t) ==> t.rem_steps >= 0,
        ensures
            final(self)@ == old(self)@.advance(),
    {
        match self.task {
            Some(mut t) => {
                if !t.is_idle() {
                    t.step();
                    self.task = Some(t);
                }
            },
            None => {},
        }
    }

    /// Last part of a tick: moves on from a phase that has no tick left.
    fn settle(&mut self, current_step: TimeStep)
        requires
            old(self)@.task is Some ==> old(self)@.history.len() > 0 && old(
                self,
            )@.history.last()@.in_range(),
            current_step >= 0,
        ensures
            final(self)@ == old(self)@.settle(current_step as int),
    {
        match self.task {
            Some(t) => {
                let n = self.jobs.len();
                let arrived = t.has_arrived_at_dest() && self.arrivals.len() == n;
                if t.is_idle() && !arrived {
                    let job = self.jobs[n - 1];
                    if t.has_arrived_at_start() {
                        let kind = self.add_job_task(
                            job.start(),
                            job.end(),
                            job.earliest_start(),
                            current_step,
                        );
                        if kind == RideTaskType::DrivingToEnd {
                            self.departures.push(current_step);
                        }
                    } else if t.is_done_waiting() {
                        proof {
                            lemma_manhattan_in_range(job@.start, job@.end);
                        }
                        self.task = Some(RideTask::new(RideTaskType::DrivingToEnd, job.dist()));
                        self.departures.push(current_step);
                    } else {
                        self.arrivals.push(current_step);
                    }
                }
            },
            None => {},
        }
    }

    /// Moves the vehicle through the tick `current_step` and reports what
    /// happened: an arrival, else a departure, else nothing.
    pub fn tick(&mut self, current_step: TimeStep) -> (out: TickComplete)
        requires
            old(self)@.wf(),
            old(self)@.ready(),
            current_step >= 0,
        ensures
            final(self)@ == old(self)@.tick(current_step as int),
            out == old(self)@.tick_event(current_step as int),
            final(self)@.wf(),
            final(self)@.buffer is None,
            old(self)@.chronological(current_step as int) ==> final(self)@.chronological(
                current_step as int,
            ),
    {
        let departed = self.departures.len();
        let arrived = self.arrivals.len();
        proof {
            lemma_tick_keeps_order(self@, current_step as int);
        }
        self.load(current_step);
        self.advance();
        self.settle(current_step);
        self.settle(current_step);
        match self.current_job() {
            Some(job) => {
                if self.arrivals.len() > arrived {
                    TickComplete::JobComplete(job.id(), job.latest_finish(), job.end())
                } else if self.departures.len() > departed {
                    proof {
                        lemma_manhattan_in_range(job@.start, job@.end);
                    }
                    TickComplete::JobStart(job.id(), job.dist(), job.earliest_start())
                } else {
                    TickComplete::Continue
                }
            },
            None => TickComplete::Continue,
        }
    }

    /// The ids of the jobs taken up so far, oldest first.
    pub fn assigned_rides(&self) -> (ids: Vec<JobId>)
        ensures
            ids@.len() == self@.history.len(),
            forall|i: int| 0 <= i < ids@.len() ==> ids@[i] == (#[trigger] self@.history[i])@.id,
    {
        let mut ids: Vec<JobId> = Vec::new();
        let mut i: usize = 0;
        while i < self.jobs.len()
            invariant
                i <= self.jobs.len(),
                ids@.len() == i,
                forall|k: int| 0 <= k < i ==> ids@[k] == (#[trigger] self.jobs@[k])@.id,
            decreases self.jobs.len() - i,
        {
            ids.push(self.jobs[i].id());
            i = i + 1;
        }
        ids
    }

    /// For each ride that has left its start point, the tick at which it did.
    pub fn departure_ticks(&self) -> (ticks: Vec<TimeStep>)
        ensures
            ticks@ == self@.departures,
    {
        self.departures.clone()
    }

    /// For each ride that has reached its end point, the tick at which it did.
    pub fn arrival_ticks(&self) -> (ticks: Vec<TimeStep>)
        ensures
            ticks@ == self@.arrivals,
    {
        self.arrivals.clone()
    }

    /// The job waiting to be taken up, if any.
    pub fn buffered_job(&self) -> (job: Option<Job>)
        ensures
            job == self@.buffer,
    {
        self.job_buffer
    }
}

/// A tick leaves a vehicle in order: nothing waits any more, the history
/// grows by the job that waited, and recorded ticks stay in order when the
/// tick is no earlier than those recorded before.
pub proof fn lemma_tick_keeps_order(v: VehicleView, now: int)
    requires
        v.wf(),
        v.ready(),
        0 <= now <= i32::MAX,
    ensures
        v.tick(now).wf(),
        v.tick(now).buffer is None,
        v.tick(now).id == v.id,
        v.tick(now).history == v.holdings(),
        v.tick(now).holdings() == v.holdings(),
        v.tick(now).arrivals == v.arrivals || (v.tick(now).arrivals == v.arrivals.push(now as i32)
            && v.tick(now).arrivals.len() == v.tick(now).history.len()),
        v.tick(now).arrivals.len() <= v.tick(now).history.len(),
        v.arrivals.len() <= v.history.len(),
        v.chronological(now) ==> v.tick(now).chronological(now),
        v.is_idle() ==> v.tick(now) == v,
{
    if v.buffer is Some {
        lemma_manhattan_in_range(v.position().unwrap(), v.buffer.unwrap()@.start);
    }
    if v.holdings().len() > 0 {
        let job = v.holdings().last()@;
        lemma_manhattan_in_range(job.start, job.end);
    }
}

/// Consecutive rides of a vehicle do not overlap: each ride but the last
/// has arrived, and did so no later than the next one left.
pub proof fn lemma_rides_in_sequence(v: VehicleView, now: int, i: int)
    requires
        v.wf(),
        v.chronological(now),
        0 <= i,
        i + 1 < v.departures.len(),
    ensures
        i < v.arrivals.len(),
        v.arrivals[i] <= v.departures[i + 1],
{
}

/// Recorded ticks that are in order at one tick are in order at any later.
pub proof fn lemma_chronological_later(v: VehicleView, now: int, later: int)
    requires
        v.chronological(now),
        now <= later,
    ensures
        v.chronological(later),
{
}

} // verus!
