//! Job records and the events a vehicle reports at the end of a tick.

use crate::util::{manhattan, Coord, TimeStep};
use vstd::prelude::*;

verus! {

/// The number of a job: its position among the jobs of the input.
pub type JobId = i32;

/// A ride request: where it starts and ends, and the window of ticks in
/// which it should be served.
#[derive(Copy, Clone, Debug)]
pub struct Job {
    id: JobId,
    start: Coord,
    end: Coord,
    earliest_start: TimeStep,
    latest_end: TimeStep,
}

/// What a job record says, as mathematical values.
pub struct JobView {
    pub id: JobId,
    pub start: Coord,
    pub end: Coord,
    pub earliest_start: TimeStep,
    pub latest_finish: TimeStep,
}

impl JobView {
    /// Number of ticks the ride itself takes.
    pub open spec fn length(self) -> int {
        manhattan(self.start, self.end)
    }

    /// Both end points are close enough to zero for every distance the
    /// simulation computes to fit in an `i32`.
    pub open spec fn in_range(self) -> bool {
        self.start.in_range() && self.end.in_range()
    }
}

impl View for Job {
    type V = JobView;

    closed spec fn view(&self) -> JobView {
        JobView {
            id: self.id,
            start: self.start,
            end: self.end,
            earliest_start: self.earliest_start,
            latest_finish: self.latest_end,
        }
    }
}

impl Job {
    /// The job record that says `v`.
    pub closed spec fn from_view(v: JobView) -> Job {
        Job {
            id: v.id,
            start: v.start,
            end: v.end,
            earliest_start: v.earliest_start,
            latest_end: v.latest_finish,
        }
    }

    pub fn new(
        id: JobId,
        start: Coord,
        end: Coord,
        earliest_start: TimeStep,
        latest_finish: TimeStep,
    ) -> (job: Job)
        ensures
            job == Job::from_view(JobView { id, start, end, earliest_start, latest_finish }),
            job@ == (JobView { id, start, end, earliest_start, latest_finish }),
    {
        Job { id, start, end, earliest_start, latest_end: latest_finish }
    }

    pub fn id(&self) -> (id: JobId)
        ensures
            id == self@.id,
    {
        self.id
    }

    pub fn start(&self) -> (c: Coord)
        ensures
            c == self@.start,
    {
        self.start
    }

    pub fn end(&self) -> (c: Coord)
        ensures
            c == self@.end,
    {
        self.end
    }

    pub fn earliest_start(&self) -> (t: TimeStep)
        ensures
            t == self@.earliest_start,
    {
        self.earliest_start
    }

    pub fn latest_finish(&self) -> (t: TimeStep)
        ensures
            t == self@.latest_finish,
    {
        self.latest_end
    }

    /// Length of the ride: the distance from its start to its end.
    pub fn dist(&self) -> (d: i32)
        requires
            self@.length() <= i32::MAX,
        ensures
            d == self@.length(),
    {
        self.start.dist(&self.end)
    }

    /// Whether both end points are in range.
    pub fn is_in_range(&self) -> (b: bool)
        ensures
            b == self@.in_range(),
    {
        self.start.is_in_range() && self.end.is_in_range()
    }
}

/// The record made from a view says what the view says.
pub proof fn lemma_job_from_view(v: JobView)
    ensures
        Job::from_view(v)@ == v,
{
}

/// What a vehicle reports at the end of a tick.
#[derive(Copy, Clone, PartialEq, Eq, Structural, Debug)]
pub enum TickComplete {
    /// Nothing to report.
    Continue,
    /// The vehicle left the start point of a job: its id, the length of the
    /// ride and the job's earliest start.
    JobStart(JobId, i32, TimeStep),
    /// The vehicle arrived at the end point of a job: its id, its latest
    /// finish and the end point.
    JobComplete(JobId, TimeStep, Coord),
}

} // verus!
