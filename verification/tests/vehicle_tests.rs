use ride_dispatch::scheduler::{Job, TickComplete};
use ride_dispatch::util::Coord;
use ride_dispatch::vehicle::{RideTask, RideTaskType, Vehicle};

fn job(id: i32, start: (i32, i32), end: (i32, i32), earliest: i32, latest: i32) -> Job {
    Job::new(id, Coord::new(start.0, start.1), Coord::new(end.0, end.1), earliest, latest)
}

#[test]
fn job_reports_its_fields() {
    let j = job(7, (1, 2), (4, 6), 3, 20);
    assert_eq!(j.id(), 7);
    assert_eq!(j.start(), Coord::new(1, 2));
    assert_eq!(j.end(), Coord::new(4, 6));
    assert_eq!(j.earliest_start(), 3);
    assert_eq!(j.latest_finish(), 20);
    assert_eq!(j.dist(), 7);
    assert!(j.is_in_range());
}

#[test]
fn task_counts_down() {
    let mut t = RideTask::new(RideTaskType::DrivingToStart, 2);
    assert_eq!(t.task_type(), RideTaskType::DrivingToStart);
    assert!(!t.is_idle());
    assert!(!t.step());
    assert!(!t.has_arrived_at_start());
    assert!(t.step());
    assert!(t.is_idle());
    assert!(t.has_arrived_at_start());
    assert!(!t.is_done_waiting());
    assert!(!t.has_arrived_at_dest());
}

#[test]
fn task_kinds_are_told_apart() {
    let waited = RideTask::new(RideTaskType::WaitingAtStart, 0);
    assert!(waited.is_done_waiting());
    assert!(!waited.has_arrived_at_start());
    let arrived = RideTask::new(RideTaskType::DrivingToEnd, 0);
    assert!(arrived.has_arrived_at_dest());
    assert!(!arrived.is_done_waiting());
    let driving = RideTask::new(RideTaskType::DrivingToEnd, 3);
    assert!(!driving.has_arrived_at_dest());
}

#[test]
fn new_vehicle_is_idle_at_the_origin() {
    let v = Vehicle::new(3);
    assert_eq!(v.id(), 3);
    assert!(v.is_idle());
    assert_eq!(v.current_pos(), Some(Coord::new(0, 0)));
    assert_eq!(v.assigned_rides(), Vec::<i32>::new());
    assert_eq!(v.buffered_job().map(|j| j.id()), None);
}

#[test]
fn tick_without_a_job_changes_nothing() {
    let mut v = Vehicle::new(0);
    assert_eq!(v.tick(1), TickComplete::Continue);
    assert_eq!(v.tick(2), TickComplete::Continue);
    assert!(v.is_idle());
    assert_eq!(v.current_pos(), Some(Coord::new(0, 0)));
}

#[test]
fn queued_job_waits_for_the_next_tick() {
    let mut v = Vehicle::new(0);
    v.queue_new_job(job(4, (0, 3), (2, 3), 0, 50));
    assert!(!v.is_idle());
    assert_eq!(v.buffered_job().map(|j| j.id()), Some(4));
    assert_eq!(v.assigned_rides(), Vec::<i32>::new());
    assert_eq!(v.tick(1), TickComplete::Continue);
    assert_eq!(v.buffered_job().map(|j| j.id()), None);
    assert_eq!(v.assigned_rides(), vec![4]);
    assert_eq!(v.current_pos(), None);
}

#[test]
fn whole_ride_drive_then_ride() {
    let mut v = Vehicle::new(0);
    // three ticks to the start, two for the ride itself
    v.queue_new_job(job(1, (1, 2), (1, 0), 0, 9));
    assert_eq!(v.tick(2), TickComplete::Continue);
    assert_eq!(v.tick(3), TickComplete::Continue);
    assert_eq!(v.tick(4), TickComplete::JobStart(1, 2, 0));
    assert_eq!(v.current_pos(), None);
    assert_eq!(v.tick(5), TickComplete::Continue);
    assert_eq!(v.tick(6), TickComplete::JobComplete(1, 9, Coord::new(1, 0)));
    assert!(v.is_idle());
    assert_eq!(v.current_pos(), Some(Coord::new(1, 0)));
    assert_eq!(v.departure_ticks(), vec![4]);
    assert_eq!(v.arrival_ticks(), vec![6]);
    assert_eq!(v.tick(7), TickComplete::Continue);
    assert!(v.is_idle());
}

#[test]
fn arriving_on_the_earliest_start_skips_the_wait() {
    let mut v = Vehicle::new(0);
    v.queue_new_job(job(0, (0, 2), (0, 5), 2, 30));
    assert_eq!(v.tick(1), TickComplete::Continue);
    // reaches the start at tick 2, which is the earliest start
    assert_eq!(v.tick(2), TickComplete::JobStart(0, 3, 2));
    assert_eq!(v.departure_ticks(), vec![2]);
    assert_eq!(v.tick(3), TickComplete::Continue);
    assert_eq!(v.tick(4), TickComplete::Continue);
    assert_eq!(v.tick(5), TickComplete::JobComplete(0, 30, Coord::new(0, 5)));
}

#[test]
fn arriving_one_tick_early_waits_one_tick() {
    let mut v = Vehicle::new(0);
    v.queue_new_job(job(0, (0, 2), (0, 5), 3, 30));
    assert_eq!(v.tick(1), TickComplete::Continue);
    // reaches the start at tick 2, one tick before the earliest start
    assert_eq!(v.tick(2), TickComplete::Continue);
    assert_eq!(v.departure_ticks(), Vec::<i32>::new());
    assert_eq!(v.current_pos(), Some(Coord::new(0, 2)));
    assert!(!v.is_idle());
    // leaves at tick 3, exactly on time
    assert_eq!(v.tick(3), TickComplete::JobStart(0, 3, 3));
    assert_eq!(v.departure_ticks(), vec![3]);
}

#[test]
fn waiting_vehicle_stands_at_the_start() {
    let mut v = Vehicle::new(0);
    v.queue_new_job(job(0, (0, 0), (0, 2), 9, 30));
    assert_eq!(v.tick(1), TickComplete::Continue);
    assert_eq!(v.current_pos(), Some(Coord::new(0, 0)));
    assert!(!v.is_idle());
    let mut w = Vehicle::new(1);
    w.queue_new_job(job(1, (3, 0), (3, 2), 4, 30));
    assert_eq!(w.tick(1), TickComplete::Continue);
    assert_eq!(w.current_pos(), None);
    assert_eq!(w.tick(2), TickComplete::Continue);
    assert_eq!(w.tick(3), TickComplete::Continue);
    assert_eq!(w.current_pos(), Some(Coord::new(3, 0)));
}

#[test]
fn arriving_late_leaves_at_once() {
    let mut v = Vehicle::new(0);
    v.queue_new_job(job(0, (0, 2), (0, 5), 0, 30));
    assert_eq!(v.tick(5), TickComplete::Continue);
    assert_eq!(v.tick(6), TickComplete::JobStart(0, 3, 0));
}

#[test]
fn job_at_the_vehicle_leaves_in_the_tick_it_is_taken_up() {
    let mut v = Vehicle::new(0);
    v.queue_new_job(job(0, (0, 0), (1, 3), 2, 9));
    assert_eq!(v.tick(2), TickComplete::JobStart(0, 4, 2));
    assert_eq!(v.tick(3), TickComplete::Continue);
    assert_eq!(v.tick(4), TickComplete::Continue);
    assert_eq!(v.tick(5), TickComplete::JobComplete(0, 9, Coord::new(1, 3)));
    assert_eq!(v.departure_ticks(), vec![2]);
    assert_eq!(v.arrival_ticks(), vec![5]);
}

#[test]
fn job_at_the_vehicle_waits_when_too_early() {
    let mut v = Vehicle::new(0);
    v.queue_new_job(job(0, (0, 0), (0, 2), 5, 30));
    // waits from tick 2 on: three ticks to wait, of which this is the first
    assert_eq!(v.tick(2), TickComplete::Continue);
    assert_eq!(v.tick(3), TickComplete::Continue);
    assert_eq!(v.tick(4), TickComplete::JobStart(0, 2, 5));
    assert_eq!(v.departure_ticks(), vec![4]);
}

#[test]
fn ride_of_length_zero_is_over_at_once() {
    let mut v = Vehicle::new(0);
    v.queue_new_job(job(9, (0, 0), (0, 0), 0, 10));
    assert_eq!(v.tick(1), TickComplete::JobComplete(9, 10, Coord::new(0, 0)));
    assert!(v.is_idle());
    assert_eq!(v.departure_ticks(), vec![1]);
    assert_eq!(v.arrival_ticks(), vec![1]);
    assert_eq!(v.assigned_rides(), vec![9]);
}

#[test]
fn ride_of_length_zero_elsewhere_is_over_on_arrival() {
    let mut v = Vehicle::new(0);
    v.queue_new_job(job(9, (0, 2), (0, 2), 0, 10));
    assert_eq!(v.tick(1), TickComplete::Continue);
    assert_eq!(v.tick(2), TickComplete::JobComplete(9, 10, Coord::new(0, 2)));
    assert_eq!(v.departure_ticks(), vec![2]);
    assert_eq!(v.arrival_ticks(), vec![2]);
}

#[test]
fn arrival_is_reported_before_departure_of_the_same_tick() {
    let mut v = Vehicle::new(0);
    // at the start already and one tick long: leaves and arrives in tick 3
    v.queue_new_job(job(2, (0, 0), (0, 1), 1, 10));
    assert_eq!(v.tick(3), TickComplete::JobComplete(2, 10, Coord::new(0, 1)));
    assert_eq!(v.departure_ticks(), vec![3]);
    assert_eq!(v.arrival_ticks(), vec![3]);
}

#[test]
fn second_job_starts_where_the_first_ended() {
    let mut v = Vehicle::new(0);
    v.queue_new_job(job(0, (0, 0), (0, 2), 0, 10));
    assert_eq!(v.tick(1), TickComplete::JobStart(0, 2, 0));
    assert_eq!(v.tick(2), TickComplete::JobComplete(0, 10, Coord::new(0, 2)));
    v.queue_new_job(job(1, (0, 3), (0, 5), 0, 10));
    assert_eq!(v.tick(3), TickComplete::JobStart(1, 2, 0));
    assert_eq!(v.tick(4), TickComplete::Continue);
    assert_eq!(v.tick(5), TickComplete::JobComplete(1, 10, Coord::new(0, 5)));
    assert_eq!(v.assigned_rides(), vec![0, 1]);
    let left = v.departure_ticks();
    let arrived = v.arrival_ticks();
    assert_eq!(left, vec![1, 3]);
    assert_eq!(arrived, vec![2, 5]);
    assert!(arrived[0] <= left[1]);
}
