use ride_dispatch::scheduler::{InputError, JobScheduler, JobScore};
use ride_dispatch::util::Coord;

fn lines(text: &[&str]) -> Vec<String> {
    text.iter().map(|l| l.to_string()).collect()
}

fn scheduler(text: &[&str]) -> JobScheduler {
    match JobScheduler::new(&lines(text)) {
        Ok(s) => s,
        Err(e) => panic!("input turned down: {:?}", e),
    }
}

fn sample() -> JobScheduler {
    scheduler(&["3 4 2 3 2 10", "0 0 1 3 2 9", "1 2 1 0 0 9", "2 0 2 2 0 9"])
}

fn fault(text: &[&str]) -> InputError {
    match JobScheduler::new(&lines(text)) {
        Ok(_) => panic!("input accepted"),
        Err(e) => e,
    }
}

#[test]
fn new_scheduler_holds_what_the_input_says() {
    let s = sample();
    assert_eq!(s.fleet_size(), 2);
    assert_eq!(s.remaining_jobs(), 3);
    assert_eq!(s.current_step(), 0);
    assert_eq!(s.max_steps(), 10);
    assert_eq!(s.ride_bonus(), 2);
    assert_eq!(s.calculate_score(), 0);
    assert_eq!(s.output_as_str(), "0\n0\n");
    for id in 0..3 {
        assert_eq!(s.score_of(id), Some(JobScore::Pending(0)));
    }
    assert_eq!(s.score_of(3), None);
    assert_eq!(s.score_of(-1), None);
    let v = s.vehicle(1).unwrap();
    assert_eq!(v.id(), 1);
    assert!(v.is_idle());
    assert!(s.vehicle(2).is_none());
}

#[test]
fn jobs_get_ids_in_the_order_of_the_lines() {
    let s = sample();
    let first = s.pending_job(0).unwrap();
    assert_eq!(first.id(), 1);
    assert_eq!(first.start(), Coord::new(1, 2));
    assert_eq!(first.end(), Coord::new(1, 0));
    assert_eq!(first.earliest_start(), 0);
    assert_eq!(first.latest_finish(), 9);
}

#[test]
fn pending_jobs_come_by_earliest_start_then_id() {
    let s = scheduler(&["5 5 0 4 1 5", "0 0 0 1 7 9", "0 0 0 1 3 9", "0 0 0 1 7 9", "0 0 0 1 0 9"]);
    let ids: Vec<i32> = (0..4).map(|k| s.pending_job(k).unwrap().id()).collect();
    assert_eq!(ids, vec![3, 1, 0, 2]);
    assert!(s.pending_job(4).is_none());
}

#[test]
fn sample_data_set_assignments() {
    let mut runner = sample();
    runner.run();
    assert_eq!(runner.output_as_str(), "2 0 2\n1 1\n");
    assert_eq!(runner.calculate_score(), 8);
    assert_eq!(runner.score_of(0), Some(JobScore::Final(6)));
    assert_eq!(runner.score_of(1), Some(JobScore::Final(2)));
    assert_eq!(runner.score_of(2), Some(JobScore::Pending(2)));
    assert_eq!(runner.remaining_jobs(), 0);
    assert_eq!(runner.current_step(), 9);
}

#[test]
fn first_tick_only_dispatches() {
    let mut s = scheduler(&["3 4 2 3 2 2", "0 0 1 3 2 9", "1 2 1 0 0 9", "2 0 2 2 0 9"]);
    s.run();
    // the job that can be served in time goes first, to the vehicle of the
    // smaller id; the next goes to the other vehicle once the start is relaxed
    assert_eq!(s.vehicle(0).unwrap().buffered_job().map(|j| j.id()), Some(0));
    assert_eq!(s.vehicle(1).unwrap().buffered_job().map(|j| j.id()), Some(1));
    assert_eq!(s.remaining_jobs(), 1);
    assert_eq!(s.pending_job(0).unwrap().id(), 2);
    assert_eq!(s.output_as_str(), "0\n0\n");
    assert_eq!(s.current_step(), 1);
}

#[test]
fn horizon_of_one_simulates_nothing() {
    let mut s = scheduler(&["3 4 2 3 2 1", "0 0 1 3 2 9", "1 2 1 0 0 9", "2 0 2 2 0 9"]);
    s.run();
    assert_eq!(s.remaining_jobs(), 3);
    assert_eq!(s.current_step(), 0);
    assert!(s.vehicle(0).unwrap().is_idle());
    assert_eq!(s.output_as_str(), "0\n0\n");
}

#[test]
fn steps_add_up_to_a_run() {
    let mut stepped = sample();
    for t in 1..10 {
        stepped.step(t);
    }
    let mut ran = sample();
    ran.run();
    assert_eq!(stepped.output_as_str(), ran.output_as_str());
    assert_eq!(stepped.calculate_score(), ran.calculate_score());
}

#[test]
fn leaving_on_the_earliest_start_earns_the_bonus() {
    let mut s = scheduler(&["5 5 1 1 7 20", "0 2 0 4 3 20"]);
    s.run();
    assert_eq!(s.vehicle(0).unwrap().departure_ticks(), vec![3]);
    assert_eq!(s.score_of(0), Some(JobScore::Final(9)));
    assert_eq!(s.calculate_score(), 9);
}

#[test]
fn leaving_after_the_earliest_start_earns_the_length_only() {
    let mut s = scheduler(&["5 5 1 1 7 20", "0 2 0 4 1 20"]);
    s.run();
    assert_eq!(s.vehicle(0).unwrap().departure_ticks(), vec![3]);
    assert_eq!(s.score_of(0), Some(JobScore::Final(2)));
    assert_eq!(s.calculate_score(), 2);
}

#[test]
fn unreachable_job_is_assigned_once_both_constraints_are_relaxed() {
    let mut s = scheduler(&["10 10 1 1 5 40", "9 9 0 0 0 3"]);
    s.run();
    assert_eq!(s.output_as_str(), "1 0\n");
    let v = s.vehicle(0).unwrap();
    assert_eq!(v.departure_ticks(), vec![19]);
    assert_eq!(v.arrival_ticks(), vec![37]);
    // it arrived after its latest finish: the score was never made final
    assert_eq!(s.score_of(0), Some(JobScore::Pending(18)));
    assert_eq!(s.calculate_score(), 0);
}

#[test]
fn arrival_counts_only_before_the_latest_finish() {
    let mut in_time = scheduler(&["10 10 1 1 5 40", "9 9 0 0 0 38"]);
    in_time.run();
    assert_eq!(in_time.vehicle(0).unwrap().arrival_ticks(), vec![37]);
    assert_eq!(in_time.score_of(0), Some(JobScore::Final(18)));
    assert_eq!(in_time.calculate_score(), 18);

    let mut too_late = scheduler(&["10 10 1 1 5 40", "9 9 0 0 0 37"]);
    too_late.run();
    assert_eq!(too_late.vehicle(0).unwrap().arrival_ticks(), vec![37]);
    assert_eq!(too_late.score_of(0), Some(JobScore::Pending(18)));
    assert_eq!(too_late.calculate_score(), 0);
}

#[test]
fn score_is_final_exactly_for_rides_that_arrived_in_time() {
    let latest = [12, 15, 9, 30, 100];
    let mut s = scheduler(&[
        "10 10 2 5 1 40",
        "0 3 0 6 2 12",
        "9 9 9 0 0 15",
        "1 1 1 2 0 9",
        "5 0 0 0 4 30",
        "2 2 8 8 0 100",
    ]);
    s.run();
    assert_eq!(s.output_as_str(), "3 2 0 3\n2 4 1\n");
    assert_eq!(s.vehicle(0).unwrap().arrival_ticks(), vec![4, 9, 25]);
    assert_eq!(s.vehicle(1).unwrap().arrival_ticks(), vec![17, 28]);
    for v in 0..s.fleet_size() {
        let vehicle = s.vehicle(v).unwrap();
        let rides = vehicle.assigned_rides();
        let arrived = vehicle.arrival_ticks();
        for (i, id) in rides.iter().enumerate() {
            let in_time = i < arrived.len() && arrived[i] < latest[*id as usize];
            let is_final = matches!(s.score_of(*id), Some(JobScore::Final(_)));
            assert_eq!(is_final, in_time);
        }
    }
    // the job that arrived at tick 28, after its latest finish at 15, is the
    // only one that does not count
    assert_eq!(s.score_of(1), Some(JobScore::Pending(9)));
    assert_eq!(s.calculate_score(), 21);
}

#[test]
fn job_under_way_at_the_end_counts_for_nothing() {
    let mut s = scheduler(&["10 10 1 1 5 30", "9 9 0 0 0 100"]);
    s.run();
    assert_eq!(s.vehicle(0).unwrap().departure_ticks(), vec![19]);
    assert_eq!(s.vehicle(0).unwrap().arrival_ticks(), Vec::<i32>::new());
    assert_eq!(s.score_of(0), Some(JobScore::Pending(18)));
    assert_eq!(s.calculate_score(), 0);
}

#[test]
fn spare_vehicles_stay_idle() {
    let mut s = scheduler(&["5 5 3 1 1 10", "0 1 0 2 0 10"]);
    s.run();
    assert_eq!(s.output_as_str(), "1 0\n0\n0\n");
    assert_eq!(s.calculate_score(), 1);
    assert!(s.vehicle(1).unwrap().is_idle());
    assert!(s.vehicle(2).unwrap().is_idle());
}

#[test]
fn vehicles_at_the_same_point_are_taken_by_id() {
    let mut s = scheduler(&["5 5 3 2 0 12", "2 2 2 4 0 12", "1 0 1 1 0 12"]);
    s.run();
    assert_eq!(s.output_as_str(), "1 0\n1 1\n0\n");
    assert_eq!(s.calculate_score(), 3);
}

#[test]
fn nearest_idle_vehicle_takes_the_job() {
    let mut s = scheduler(&[
        "10 10 2 4 0 40",
        "0 0 0 5 5 40",
        "0 0 5 0 5 40",
        "6 0 7 0 30 40",
        "0 6 0 7 30 40",
    ]);
    s.run();
    // both vehicles are idle again at tick 9, one at (0, 5), one at (5, 0):
    // the job at (6, 0) goes to the second, though the first has the smaller id
    assert_eq!(s.vehicle(0).unwrap().arrival_ticks()[0], 9);
    assert_eq!(s.vehicle(1).unwrap().arrival_ticks()[0], 9);
    assert_eq!(s.output_as_str(), "2 0 3\n2 1 2\n");
}

#[test]
fn more_jobs_than_the_fleet_can_serve() {
    let mut s = scheduler(&[
        "6 6 2 5 3 25",
        "0 0 0 3 0 25",
        "5 5 5 0 2 25",
        "1 1 4 1 2 25",
        "3 3 3 4 9 25",
        "0 5 0 0 20 25",
    ]);
    s.run();
    assert_eq!(s.output_as_str(), "3 3 0 1\n1 4\n");
    assert_eq!(s.calculate_score(), 7);
    assert_eq!(s.remaining_jobs(), 1);
    assert_eq!(s.pending_job(0).unwrap().id(), 2);
    // a job is left over only where no vehicle is idle
    assert!(!s.vehicle(0).unwrap().is_idle());
    assert!(!s.vehicle(1).unwrap().is_idle());
}

#[test]
fn every_job_is_in_one_history_at_most() {
    let mut s = scheduler(&[
        "6 6 2 5 3 25",
        "0 0 0 3 0 25",
        "5 5 5 0 2 25",
        "1 1 4 1 2 25",
        "3 3 3 4 9 25",
        "0 5 0 0 20 25",
    ]);
    for t in 1..25 {
        s.step(t);
        let mut seen: Vec<i32> = Vec::new();
        let mut taken = 0;
        for v in 0..s.fleet_size() {
            for id in s.vehicle(v).unwrap().assigned_rides() {
                assert!(!seen.contains(&id));
                seen.push(id);
                taken += 1;
            }
        }
        for k in 0..s.remaining_jobs() {
            assert!(!seen.contains(&s.pending_job(k).unwrap().id()));
        }
        assert!(taken + s.remaining_jobs() <= 5);
    }
}

#[test]
fn rides_of_a_vehicle_do_not_overlap() {
    let mut s = scheduler(&[
        "6 6 2 5 3 25",
        "0 0 0 3 0 25",
        "5 5 5 0 2 25",
        "1 1 4 1 2 25",
        "3 3 3 4 9 25",
        "0 5 0 0 20 25",
    ]);
    s.run();
    let v = s.vehicle(0).unwrap();
    let left = v.departure_ticks();
    let arrived = v.arrival_ticks();
    assert_eq!(left, vec![9, 17]);
    assert_eq!(arrived, vec![10, 20]);
    for i in 0..left.len() - 1 {
        assert!(arrived[i] <= left[i + 1]);
    }
}

#[test]
fn same_input_gives_the_same_result() {
    let mut a = sample();
    let mut b = sample();
    a.run();
    b.run();
    assert_eq!(a.output_as_str(), b.output_as_str());
    assert_eq!(a.calculate_score(), b.calculate_score());
}

#[test]
fn ride_that_leaves_and_arrives_in_one_tick_scores_nothing() {
    let mut s = scheduler(&["3 3 1 1 4 6", "0 0 0 1 2 6"]);
    s.run();
    assert_eq!(s.vehicle(0).unwrap().departure_ticks(), vec![2]);
    assert_eq!(s.vehicle(0).unwrap().arrival_ticks(), vec![2]);
    assert_eq!(s.score_of(0), Some(JobScore::Final(0)));
    assert_eq!(s.calculate_score(), 0);
}

#[test]
fn negative_bonus_can_cancel_a_score() {
    let mut s = scheduler(&["5 5 1 1 -7 20", "0 2 0 4 3 20"]);
    s.run();
    assert_eq!(s.score_of(0), Some(JobScore::Final(-5)));
    assert_eq!(s.calculate_score(), 0);
}

#[test]
fn negative_coordinates_are_served() {
    let mut s = scheduler(&["3 3 2 1 0 9", "0 -3 0 -4 0 9"]);
    s.run();
    assert_eq!(s.output_as_str(), "1 0\n0\n");
    assert_eq!(s.calculate_score(), 1);
}

#[test]
fn no_vehicles_means_no_lines() {
    let mut s = scheduler(&["5 5 0 1 1 5", "0 0 0 1 0 9"]);
    s.run();
    assert_eq!(s.output_as_str(), "");
    assert_eq!(s.remaining_jobs(), 1);
}

#[test]
fn no_jobs_leaves_the_fleet_idle() {
    let mut s = scheduler(&["5 5 2 0 1 5"]);
    s.run();
    assert_eq!(s.output_as_str(), "0\n0\n");
    assert_eq!(s.calculate_score(), 0);
}

#[test]
fn empty_input_has_no_header() {
    assert_eq!(fault(&[]), InputError::MissingHeader);
}

#[test]
fn word_in_a_field_is_not_a_number() {
    assert_eq!(fault(&["3 4 two 3 2 10"]), InputError::NotANumber { line: 0 });
    assert_eq!(
        fault(&["3 4 2 3 2 10", "0 0 1 3 2 9", "1 2 1 x 0 9"]),
        InputError::NotANumber { line: 2 }
    );
}

#[test]
fn empty_field_is_not_a_number() {
    assert_eq!(fault(&["3 4  2 3 2 10"]), InputError::NotANumber { line: 0 });
    assert_eq!(fault(&["3 4 2 3 2 10 "]), InputError::NotANumber { line: 0 });
    assert_eq!(fault(&[""]), InputError::NotANumber { line: 0 });
}

#[test]
fn number_beyond_32_bits_is_not_a_number() {
    assert_eq!(fault(&["3 4 2 3 2 2147483648"]), InputError::NotANumber { line: 0 });
    assert_eq!(fault(&["3 4 2 3 2 -2147483649"]), InputError::NotANumber { line: 0 });
}

#[test]
fn five_or_seven_fields_are_the_wrong_count() {
    assert_eq!(fault(&["3 4 2 3 2"]), InputError::WrongFieldCount { line: 0 });
    assert_eq!(
        fault(&["3 4 2 3 2 10", "0 0 1 3 2 9 1"]),
        InputError::WrongFieldCount { line: 1 }
    );
}

#[test]
fn bad_field_is_reported_before_the_field_count() {
    assert_eq!(fault(&["3 4 x"]), InputError::NotANumber { line: 0 });
}

#[test]
fn first_faulty_line_is_reported() {
    assert_eq!(
        fault(&["3 4 2 3 2 10", "0 0 1 3 2", "0 0 1 z 2 9"]),
        InputError::WrongFieldCount { line: 1 }
    );
}

#[test]
fn negative_counts_are_turned_down() {
    assert_eq!(fault(&["3 4 -1 3 2 10"]), InputError::NegativeCount);
    assert_eq!(fault(&["3 4 2 -3 2 10"]), InputError::NegativeCount);
}

#[test]
fn far_coordinates_are_out_of_range() {
    assert_eq!(
        fault(&["3 4 2 3 2 10", "0 0 1 3 2 9", "0 536870912 0 0 0 9"]),
        InputError::OutOfRange { line: 2 }
    );
    assert_eq!(
        fault(&["3 4 2 3 2 10", "0 0 -536870912 3 2 9"]),
        InputError::OutOfRange { line: 1 }
    );
    let s = scheduler(&["3 4 2 3 2 10", "536870911 -536870911 0 0 0 9"]);
    assert_eq!(s.remaining_jobs(), 1);
}

#[test]
fn signs_and_extreme_numbers_are_read() {
    let s = scheduler(&["+3 4 1 1 -2147483648 2147483647", "-0 007 +1 3 -5 9"]);
    assert_eq!(s.ride_bonus(), -2147483648);
    assert_eq!(s.max_steps(), 2147483647);
    let job = s.pending_job(0).unwrap();
    assert_eq!(job.start(), Coord::new(0, 7));
    assert_eq!(job.end(), Coord::new(1, 3));
    assert_eq!(job.earliest_start(), -5);
}
