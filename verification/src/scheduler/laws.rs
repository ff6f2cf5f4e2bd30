//! What a tick and a dispatch pass keep true of a simulation.

use crate::scheduler::job::{Job, JobView};
use crate::scheduler::model::{
    any_idle, assigned, choice, eligible, first_match, held, held_id, is_choice, nearer,
    pending_id, relax_room, scanned_before, SchedulerView,
};
use crate::scheduler::output::render;
use crate::scheduler::score::{lemma_record_bounded, total};
use crate::scheduler::setup::{initial, input_fault, lemma_initial_wf};
use crate::vehicle::{
    lemma_chronological_later, lemma_rides_in_sequence, lemma_tick_keeps_order, VehicleView,
};
use vstd::prelude::*;

verus! {

/// Replacing one vehicle changes the number of held jobs by the difference
/// between what the two hold.
pub proof fn lemma_held_update(fleet: Seq<VehicleView>, v: int, with: VehicleView)
    requires
        0 <= v < fleet.len(),
    ensures
        held(fleet.update(v, with)) == held(fleet) - fleet[v].holdings().len()
            + with.holdings().len(),
    decreases fleet.len(),
{
    let after = fleet.update(v, with);
    if v == fleet.len() - 1 {
        assert(after.drop_last() =~= fleet.drop_last());
    } else {
        assert(after.drop_last() =~= fleet.drop_last().update(v, with));
        lemma_held_update(fleet.drop_last(), v, with);
    }
}

/// The vehicles have taken up no more jobs than they hold.
pub proof fn lemma_assigned_le_held(fleet: Seq<VehicleView>)
    ensures
        assigned(fleet) <= held(fleet),
    decreases fleet.len(),
{
    if fleet.len() > 0 {
        lemma_assigned_le_held(fleet.drop_last());
    }
}

/// Only one vehicle can be the one to serve a job.
pub proof fn lemma_choice_is(
    fleet: Seq<VehicleView>,
    v: int,
    job: JobView,
    now: int,
    relax_start: bool,
    relax_end: bool,
)
    requires
        is_choice(fleet, v, job, now, relax_start, relax_end),
    ensures
        choice(fleet, job, now, relax_start, relax_end) == Some(v),
{
    let w = choose|w: int| is_choice(fleet, w, job, now, relax_start, relax_end);
    assert(nearer(fleet, v, w, job.start) && nearer(fleet, w, v, job.start));
}

/// A match that the scan finds is a pending job that an idle vehicle can
/// serve.
pub proof fn lemma_first_match_valid(
    fleet: Seq<VehicleView>,
    pending: Seq<Job>,
    from: int,
    now: int,
    relax_start: bool,
    relax_end: bool,
)
    requires
        0 <= from,
    ensures
        first_match(fleet, pending, from, now, relax_start, relax_end) matches Some((k, v))
            ==> from <= k < pending.len() && choice(
            fleet,
            pending[k]@,
            now,
            relax_start,
            relax_end,
        ) == Some(v),
        first_match(fleet, pending, from, now, relax_start, relax_end) is None ==> forall|k: int|
            from <= k < pending.len() ==> (#[trigger] choice(
                fleet,
                pending[k]@,
                now,
                relax_start,
                relax_end,
            )) is None,
    decreases pending.len() - from,
{
    if from < pending.len() {
        lemma_first_match_valid(fleet, pending, from + 1, now, relax_start, relax_end);
    }
}

/// A vehicle going through a tick keeps the simulation in order.
pub proof fn lemma_tick_vehicle_wf(s: SchedulerView, v: int)
    requires
        s.wf(),
        0 <= v < s.fleet.len(),
        0 <= s.current_step,
    ensures
        s.tick_vehicle(v).wf(),
        s.in_order() ==> s.tick_vehicle(v).in_order(),
        s.tick_vehicle(v).fleet.len() == s.fleet.len(),
        s.tick_vehicle(v).pending == s.pending,
        s.tick_vehicle(v).current_step == s.current_step,
{
    let now = s.current_step as int;
    let t = s.tick_vehicle(v);
    lemma_tick_keeps_order(s.fleet[v], now);
    lemma_record_bounded(s.scores, s.fleet[v].tick_event(now), now, s.ride_bonus as int);
    lemma_held_update(s.fleet, v, s.fleet[v].tick(now));
    assert forall|w: int| 0 <= w < t.fleet.len() implies (#[trigger] t.fleet[w]).holdings()
        == s.fleet[w].holdings() by {}
    assert forall|w: int, i: int|
        0 <= w < t.fleet.len() && 0 <= i < t.fleet[w].holdings().len() implies #[trigger] held_id(
        t.fleet,
        w,
        i,
    ) == held_id(s.fleet, w, i) by {}
    assert(t.scored()) by {
        // what the vehicle reports is about the last job it holds
        let last = s.fleet[v].holdings().len() - 1;
        assert forall|k: int| 0 <= k < t.pending.len() implies t.scores[#[trigger] pending_id(
            t.pending,
            k,
        )] is Pending by {
            assert(s.scores[pending_id(s.pending, k)] is Pending);
            if last >= 0 {
                assert(held_id(s.fleet, v, last) != pending_id(s.pending, k));
            }
        }
        assert forall|w: int, i: int|
            0 <= w < t.fleet.len() && 0 <= i < t.fleet[w].holdings().len() implies (
        t.scores[#[trigger] held_id(t.fleet, w, i)] is Final <==> i < t.fleet[w].arrivals.len()
            && t.fleet[w].arrivals[i] < t.fleet[w].holdings()[i]@.latest_finish) by {
            let id = held_id(s.fleet, w, i);
            assert(s.scores[id] is Final <==> i < s.fleet[w].arrivals.len()
                && s.fleet[w].arrivals[i] < s.fleet[w].holdings()[i]@.latest_finish);
            if last >= 0 && (w != v || i != last) {
                assert(held_id(s.fleet, v, last) != id);
            }
        }
    }
    if s.in_order() {
        assert forall|w: int| 0 <= w < t.fleet.len() implies (#[trigger] t.fleet[w]).chronological(
            now,
        ) by {}
    }
}

/// Handing a pending job to an idle vehicle keeps the simulation in order.
pub proof fn lemma_assign_wf(s: SchedulerView, k: int, v: int)
    requires
        s.wf(),
        0 <= k < s.pending.len(),
        0 <= v < s.fleet.len(),
        s.fleet[v].is_idle(),
    ensures
        s.assign(k, v).wf(),
        s.in_order() ==> s.assign(k, v).in_order(),
        s.assign(k, v).pending.len() == s.pending.len() - 1,
        s.assign(k, v).fleet.len() == s.fleet.len(),
        !s.assign(k, v).fleet[v].is_idle(),
{
    let t = s.assign(k, v);
    let job = s.pending[k];
    assert(0 <= pending_id(s.pending, k) < s.scores.len() && job@.in_range());
    lemma_held_update(s.fleet, v, s.fleet[v].queue(job));
    assert forall|w: int| 0 <= w < t.fleet.len() && w != v implies (#[trigger] t.fleet[w])
        == s.fleet[w] by {}
    assert forall|a: int| 0 <= a < t.pending.len() implies #[trigger] pending_id(t.pending, a)
        == pending_id(s.pending, if a < k { a } else { a + 1 }) && t.pending[a] == s.pending[if a
        < k {
        a
    } else {
        a + 1
    }] by {}
    assert forall|w: int, i: int|
        0 <= w < t.fleet.len() && 0 <= i < t.fleet[w].holdings().len() implies #[trigger] held_id(
        t.fleet,
        w,
        i,
    ) == (if w == v && i == s.fleet[v].holdings().len() {
        pending_id(s.pending, k)
    } else {
        held_id(s.fleet, w, i)
    }) by {}
    assert(t.known_jobs()) by {
        assert forall|a: int| 0 <= a < t.pending.len() implies 0 <= #[trigger] pending_id(
            t.pending,
            a,
        ) < t.scores.len() && t.pending[a]@.in_range() by {}
        assert forall|w: int, i: int|
            0 <= w < t.fleet.len() && 0 <= i < t.fleet[w].holdings().len() implies 0
            <= #[trigger] held_id(t.fleet, w, i) < t.scores.len() by {
            if w != v || i != s.fleet[v].holdings().len() {
                assert(0 <= held_id(s.fleet, w, i) < s.scores.len());
            }
        }
    }
    assert(t.distinct_jobs()) by {
        assert forall|a: int, b: int| 0 <= a < b < t.pending.len() implies #[trigger] pending_id(
            t.pending,
            a,
        ) != #[trigger] pending_id(t.pending, b) by {
            let a0 = if a < k { a } else { a + 1 };
            let b0 = if b < k { b } else { b + 1 };
            assert(pending_id(s.pending, a0) != pending_id(s.pending, b0));
        }
        assert forall|w: int, i: int, a: int|
            0 <= w < t.fleet.len() && 0 <= i < t.fleet[w].holdings().len() && 0 <= a
                < t.pending.len() implies #[trigger] held_id(t.fleet, w, i) != #[trigger] pending_id(
            t.pending,
            a,
        ) by {
            let a0 = if a < k { a } else { a + 1 };
            if w != v || i != s.fleet[v].holdings().len() {
                assert(held_id(s.fleet, w, i) != pending_id(s.pending, a0));
            }
        }
        assert forall|w: int, i: int, x: int, j: int|
            0 <= w < t.fleet.len() && 0 <= i < t.fleet[w].holdings().len() && 0 <= x
                < t.fleet.len() && 0 <= j < t.fleet[x].holdings().len() && (w != x || i
                != j) implies #[trigger] held_id(t.fleet, w, i) != #[trigger] held_id(
            t.fleet,
            x,
            j,
        ) by {
            let n = s.fleet[v].holdings().len() as int;
            if w == v && i == n {
                assert(held_id(s.fleet, x, j) != pending_id(s.pending, k));
            } else if x == v && j == n {
                assert(held_id(s.fleet, w, i) != pending_id(s.pending, k));
            } else {
                assert(held_id(s.fleet, w, i) != held_id(s.fleet, x, j));
            }
        }
    }
    assert(t.pending_sorted()) by {
        assert forall|a: int, b: int| 0 <= a < b < t.pending.len() implies scanned_before(
            (#[trigger] t.pending[a])@,
            (#[trigger] t.pending[b])@,
        ) by {
            let a0 = if a < k { a } else { a + 1 };
            let b0 = if b < k { b } else { b + 1 };
            assert(scanned_before(s.pending[a0]@, s.pending[b0]@));
        }
    }
    assert forall|w: int| 0 <= w < t.fleet.len() implies (#[trigger] t.fleet[w]).wf()
        && t.fleet[w].ready() && t.fleet[w].id == w by {
        if w != v {
            assert(s.fleet[w].wf());
        }
    }
    if s.in_order() {
        assert forall|w: int| 0 <= w < t.fleet.len() implies (#[trigger] t.fleet[w]).chronological(
            t.current_step as int,
        ) by {}
    }
}

/// No job is taken up twice: two places in the histories of the vehicles
/// that hold the same job id are the same place.
pub proof fn lemma_job_taken_up_once(s: SchedulerView, v: int, i: int, w: int, j: int)
    requires
        s.wf(),
        0 <= v < s.fleet.len(),
        0 <= i < s.fleet[v].history.len(),
        0 <= w < s.fleet.len(),
        0 <= j < s.fleet[w].history.len(),
        s.fleet[v].history[i]@.id == s.fleet[w].history[j]@.id,
    ensures
        v == w,
        i == j,
{
    assert(held_id(s.fleet, v, i) == s.fleet[v].history[i]@.id);
    assert(held_id(s.fleet, w, j) == s.fleet[w].history[j]@.id);
}

/// A job that is taken up is no longer pending, and no job is pending twice.
pub proof fn lemma_job_in_one_place(s: SchedulerView)
    requires
        s.wf(),
    ensures
        forall|v: int, i: int, k: int|
            0 <= v < s.fleet.len() && 0 <= i < s.fleet[v].history.len() && 0 <= k
                < s.pending.len() ==> (#[trigger] s.fleet[v].history[i])@.id != (
            #[trigger] s.pending[k])@.id,
        forall|a: int, b: int|
            0 <= a < b < s.pending.len() ==> (#[trigger] s.pending[a])@.id != (
            #[trigger] s.pending[b])@.id,
{
    assert forall|v: int, i: int, k: int|
        0 <= v < s.fleet.len() && 0 <= i < s.fleet[v].history.len() && 0 <= k
            < s.pending.len() implies (#[trigger] s.fleet[v].history[i])@.id != (
    #[trigger] s.pending[k])@.id by {
        assert(held_id(s.fleet, v, i) == s.fleet[v].history[i]@.id);
        assert(pending_id(s.pending, k) == s.pending[k]@.id);
    }
    assert forall|a: int, b: int| 0 <= a < b < s.pending.len() implies (#[trigger] s.pending[a])@.id
        != (#[trigger] s.pending[b])@.id by {
        assert(pending_id(s.pending, a) != pending_id(s.pending, b));
    }
}

/// The score of a job that a vehicle took up is final exactly if the ride
/// has arrived, and did so before the job's latest finish. Only final scores
/// count in the total.
pub proof fn lemma_final_iff_arrived_in_time(s: SchedulerView, v: int, i: int)
    requires
        s.wf(),
        0 <= v < s.fleet.len(),
        0 <= i < s.fleet[v].history.len(),
    ensures
        0 <= s.fleet[v].history[i]@.id < s.scores.len(),
        s.scores[s.fleet[v].history[i]@.id as int] is Final <==> i < s.fleet[v].arrivals.len()
            && s.fleet[v].arrivals[i] < s.fleet[v].history[i]@.latest_finish,
        !(s.scores[s.fleet[v].history[i]@.id as int] is Final)
            ==> s.scores[s.fleet[v].history[i]@.id as int].counted() == 0,
{
    assert(held_id(s.fleet, v, i) == s.fleet[v].history[i]@.id);
}

/// The vehicles have together taken up no more jobs than there are, and
/// with the pending jobs still no more.
pub proof fn lemma_assigned_at_most_all(s: SchedulerView)
    requires
        s.wf(),
    ensures
        assigned(s.fleet) + s.pending.len() <= s.scores.len(),
{
    lemma_assigned_le_held(s.fleet);
}

/// The rides of a vehicle do not overlap: each ride but the last has
/// arrived, and did so no later than the next one left.
pub proof fn lemma_rides_do_not_overlap(s: SchedulerView, v: int, i: int)
    requires
        s.wf(),
        s.in_order(),
        0 <= v < s.fleet.len(),
        0 <= i,
        i + 1 < s.fleet[v].departures.len(),
    ensures
        i < s.fleet[v].arrivals.len(),
        s.fleet[v].arrivals[i] <= s.fleet[v].departures[i + 1],
{
    lemma_rides_in_sequence(s.fleet[v], s.current_step as int, i);
}

/// The same input gives the same simulation: the same fault if it is
/// turned down, and else the same assignments and the same score.
pub proof fn lemma_same_input_same_result(a: Seq<Seq<u8>>, b: Seq<Seq<u8>>)
    requires
        a == b,
    ensures
        input_fault(a) == input_fault(b),
        initial(a).run() == initial(b).run(),
        render(initial(a).run().fleet) == render(initial(b).run().fleet),
        total(initial(a).run().scores) == total(initial(b).run().scores),
{
}

/// A dispatch pass changes neither the current tick nor the horizon.
pub proof fn lemma_dispatch_frame(s: SchedulerView, relax_start: bool, relax_end: bool)
    ensures
        s.dispatch_from(relax_start, relax_end).current_step == s.current_step,
        s.dispatch_from(relax_start, relax_end).max_tsteps == s.max_tsteps,
    decreases s.pending.len(), relax_room(relax_start, relax_end),
{
    if s.pending.len() == 0 || !any_idle(s.fleet) {
    } else {
        match first_match(s.fleet, s.pending, 0, s.current_step as int, relax_start, relax_end) {
            Some((k, v)) => {
                if 0 <= k < s.pending.len() {
                    lemma_dispatch_frame(s.assign(k, v), false, false);
                }
            },
            None => {
                if !relax_start {
                    lemma_dispatch_frame(s, true, relax_end);
                } else if !relax_end {
                    lemma_dispatch_frame(s, true, true);
                }
            },
        }
    }
}

/// Moving the vehicles changes neither the current tick nor the horizon.
pub proof fn lemma_tick_fleet_frame(s: SchedulerView, n: int)
    ensures
        s.tick_fleet(n).current_step == s.current_step,
        s.tick_fleet(n).max_tsteps == s.max_tsteps,
    decreases n,
{
    if n > 0 {
        lemma_tick_fleet_frame(s, n - 1);
    }
}

/// A tick leaves the horizon as it was and makes itself the current tick.
pub proof fn lemma_step_frame(s: SchedulerView, t: i32)
    ensures
        s.step(t).current_step == t,
        s.step(t).max_tsteps == s.max_tsteps,
{
    let now = SchedulerView { current_step: t, ..s };
    lemma_tick_fleet_frame(now, now.fleet.len() as int);
    lemma_dispatch_frame(now.tick_vehicles(), false, false);
}

/// Among the first `n` vehicles, if any can serve the job, one of those
/// that can is nearest.
pub proof fn lemma_nearest_exists(
    fleet: Seq<VehicleView>,
    job: JobView,
    now: int,
    relax_start: bool,
    relax_end: bool,
    n: int,
) -> (v: int)
    requires
        0 <= n <= fleet.len(),
        exists|u: int| 0 <= u < n && eligible(fleet, u, job, now, relax_start, relax_end),
    ensures
        0 <= v < n,
        eligible(fleet, v, job, now, relax_start, relax_end),
        forall|u: int|
            0 <= u < n && #[trigger] eligible(fleet, u, job, now, relax_start, relax_end)
                ==> nearer(fleet, v, u, job.start),
    decreases n,
{
    let last = n - 1;
    if exists|u: int| 0 <= u < last && eligible(fleet, u, job, now, relax_start, relax_end) {
        let w = lemma_nearest_exists(fleet, job, now, relax_start, relax_end, last);
        if eligible(fleet, last, job, now, relax_start, relax_end) && !nearer(
            fleet,
            w,
            last,
            job.start,
        ) {
            assert forall|u: int|
                0 <= u < n && #[trigger] eligible(
                    fleet,
                    u,
                    job,
                    now,
                    relax_start,
                    relax_end,
                ) implies nearer(fleet, last, u, job.start) by {
                if u < last {
                    assert(nearer(fleet, w, u, job.start));
                }
            }
            last
        } else {
            w
        }
    } else {
        last
    }
}

/// The vehicle chosen for a job is idle, can serve it, and is the nearest
/// of those that can.
pub proof fn lemma_choice_valid(
    fleet: Seq<VehicleView>,
    job: JobView,
    now: int,
    relax_start: bool,
    relax_end: bool,
)
    ensures
        choice(fleet, job, now, relax_start, relax_end) matches Some(v) ==> is_choice(
            fleet,
            v,
            job,
            now,
            relax_start,
            relax_end,
        ),
        choice(fleet, job, now, relax_start, relax_end) is None ==> forall|u: int|
            !eligible(fleet, u, job, now, relax_start, relax_end),
{
    if exists|u: int| eligible(fleet, u, job, now, relax_start, relax_end) {
        let v = lemma_nearest_exists(
            fleet,
            job,
            now,
            relax_start,
            relax_end,
            fleet.len() as int,
        );
        assert(is_choice(fleet, v, job, now, relax_start, relax_end));
    }
}

/// A dispatch pass keeps the simulation in order, hands jobs to vehicles
/// only, and ends with no job pending or no vehicle idle.
pub proof fn lemma_dispatch_keeps_wf(s: SchedulerView, relax_start: bool, relax_end: bool)
    requires
        s.wf(),
    ensures
        s.dispatch_from(relax_start, relax_end).wf(),
        s.in_order() ==> s.dispatch_from(relax_start, relax_end).in_order(),
        s.dispatch_from(relax_start, relax_end).pending.len() == 0 || !any_idle(
            s.dispatch_from(relax_start, relax_end).fleet,
        ),
    decreases s.pending.len(), relax_room(relax_start, relax_end),
{
    if s.pending.len() == 0 || !any_idle(s.fleet) {
    } else {
        let now = s.current_step as int;
        lemma_first_match_valid(s.fleet, s.pending, 0, now, relax_start, relax_end);
        match first_match(s.fleet, s.pending, 0, now, relax_start, relax_end) {
            Some((k, v)) => {
                lemma_choice_valid(s.fleet, s.pending[k]@, now, relax_start, relax_end);
                lemma_assign_wf(s, k, v);
                lemma_dispatch_keeps_wf(s.assign(k, v), false, false);
            },
            None => {
                if !relax_start {
                    lemma_dispatch_keeps_wf(s, true, relax_end);
                } else if !relax_end {
                    lemma_dispatch_keeps_wf(s, true, true);
                } else {
                    let u = choose|u: int| 0 <= u < s.fleet.len() && (#[trigger] s.fleet[u]).is_idle();
                    assert(eligible(s.fleet, u, s.pending[0]@, now, true, true));
                }
            },
        }
    }
}

/// Moving the first `n` vehicles through a tick keeps the simulation in
/// order.
pub proof fn lemma_tick_fleet_keeps_wf(s: SchedulerView, n: int)
    requires
        s.wf(),
        0 <= s.current_step,
        0 <= n <= s.fleet.len(),
    ensures
        s.tick_fleet(n).wf(),
        s.in_order() ==> s.tick_fleet(n).in_order(),
        s.tick_fleet(n).fleet.len() == s.fleet.len(),
        s.tick_fleet(n).pending == s.pending,
        s.tick_fleet(n).current_step == s.current_step,
    decreases n,
{
    if n > 0 {
        lemma_tick_fleet_keeps_wf(s, n - 1);
        lemma_tick_vehicle_wf(s.tick_fleet(n - 1), n - 1);
    }
}

/// A tick keeps the simulation in order. After it a job is pending only if
/// no vehicle is idle, and the rides are recorded in the order of the ticks
/// if they were before and the tick is no earlier than the last.
pub proof fn lemma_step_keeps_wf(s: SchedulerView, t: i32)
    requires
        s.wf(),
        0 <= t,
    ensures
        s.step(t).wf(),
        s.step(t).current_step == t,
        s.step(t).max_tsteps == s.max_tsteps,
        s.in_order() && s.current_step <= t ==> s.step(t).in_order(),
        s.step(t).pending.len() == 0 || !any_idle(s.step(t).fleet),
{
    let now = SchedulerView { current_step: t, ..s };
    if s.in_order() && s.current_step <= t {
        assert forall|v: int| 0 <= v < now.fleet.len() implies (
        #[trigger] now.fleet[v]).chronological(t as int) by {
            lemma_chronological_later(s.fleet[v], s.current_step as int, t as int);
        }
    }
    lemma_tick_fleet_keeps_wf(now, now.fleet.len() as int);
    lemma_dispatch_keeps_wf(now.tick_vehicles(), false, false);
    lemma_step_frame(s, t);
}

/// A job is left over only where no vehicle was free for it: if a job is
/// still pending after a tick, no vehicle is idle.
pub proof fn lemma_leftover_means_no_idle_vehicle(s: SchedulerView, t: i32)
    requires
        s.wf(),
        0 <= t,
        s.step(t).pending.len() > 0,
    ensures
        !any_idle(s.step(t).fleet),
{
    lemma_step_keeps_wf(s, t);
}

/// The simulation is in order at every tick: whatever the horizon, the
/// state after the ticks from `t` on is in order, and the rides are
/// recorded in the order of the ticks if they were at the start.
pub proof fn lemma_in_order_at_every_tick(s: SchedulerView, t: int, limit: int)
    requires
        s.wf(),
        0 <= t,
        limit <= i32::MAX,
    ensures
        s.run_from(t, limit).wf(),
        s.in_order() && s.current_step <= t ==> s.run_from(t, limit).in_order(),
        t < limit ==> s.run_from(t, limit).pending.len() == 0 || !any_idle(
            s.run_from(t, limit).fleet,
        ),
    decreases limit - t,
{
    if t < limit {
        lemma_step_keeps_wf(s, t as i32);
        lemma_in_order_at_every_tick(s.step(t as i32), t + 1, limit);
    }
}

/// The simulation of an accepted input is in order after any number of
/// ticks: no job is in two places, the vehicles have taken up no more jobs
/// than there are, and the rides of each vehicle are recorded in the order
/// of the ticks.
pub proof fn lemma_simulation_in_order(lines: Seq<Seq<u8>>, limit: int)
    requires
        input_fault(lines) is None,
        limit <= i32::MAX,
    ensures
        initial(lines).run_from(1, limit).wf(),
        initial(lines).run_from(1, limit).in_order(),
{
    lemma_initial_wf(lines);
    lemma_in_order_at_every_tick(initial(lines), 1, limit);
}

} // verus!
