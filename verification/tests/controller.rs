use timing_search::config::SearchConfig;
use timing_search::controller::{
    Action, ConnectionFailed, Controller, Event, Phase, Progress, MAX_ELAPSED_NANOS,
};
use timing_search::wire::Direction;

fn small_config(rounds_per_level: u32, decision_threshold: u128, max_level: u32) -> SearchConfig {
    SearchConfig { rounds_per_level, batch_size: 1000, decision_threshold, max_level }
}

fn completed(elapsed_nanos: u128) -> Event {
    Event::Completed { elapsed_nanos }
}

#[test]
fn a_new_controller_asks_for_the_increasing_side_first() {
    let controller = Controller::new(SearchConfig::default());
    assert_eq!(controller.phase, Phase::Probing);
    assert_eq!(
        controller.next_action(),
        Action::Probe { pivot: u128::MAX / 2, direction: Direction::Increasing }
    );
    assert_eq!(controller.final_pivot(), None);
}

#[test]
fn the_two_sides_alternate_within_a_round() {
    let mut controller = Controller::new(SearchConfig::default());
    assert_eq!(controller.on_event(completed(10)), Ok(None));
    assert_eq!(
        controller.next_action(),
        Action::Probe { pivot: u128::MAX / 2, direction: Direction::Decreasing }
    );
    assert_eq!(controller.on_event(completed(10)), Ok(None));
    assert_eq!(
        controller.next_action(),
        Action::Probe { pivot: u128::MAX / 2, direction: Direction::Increasing }
    );
    assert_eq!(controller.rounds_done, 1);
}

#[test]
fn a_level_takes_two_hundred_rounds_on_each_side() {
    let mut controller = Controller::new(SearchConfig::default());
    for _ in 0..199 {
        assert_eq!(controller.on_event(completed(1_000)), Ok(None));
        assert_eq!(controller.on_event(completed(899)), Ok(None));
    }
    assert_eq!(controller.state.level, 2);
    assert_eq!(controller.on_event(completed(1_000)), Ok(None));
    assert_eq!(controller.sum_plus, 200_000);
    assert_eq!(controller.sum_minus, 199 * 899);
    let reply = controller.on_event(completed(899));
    assert_eq!(
        reply,
        Ok(Some(Progress { level: 3, pivot: u128::MAX / 2 + (1 << 126) }))
    );
    assert_eq!(controller.state.level, 3);
    assert_eq!(controller.state.pivot, 255211775190703847597530955573826158591);
    assert_eq!(controller.rounds_done, 0);
    assert_eq!(controller.sum_plus, 0);
    assert_eq!(controller.sum_minus, 0);
}

#[test]
fn totals_within_the_threshold_leave_pivot_and_level_unchanged() {
    let mut controller = Controller::new(SearchConfig::default());
    let mut last = Ok(None);
    for _ in 0..200 {
        controller.on_event(completed(1_100)).unwrap();
        last = controller.on_event(completed(1_000));
    }
    assert_eq!(last, Ok(Some(Progress { level: 2, pivot: u128::MAX / 2 })));
    assert_eq!(controller.state.level, 2);
    assert_eq!(controller.state.pivot, u128::MAX / 2);
    assert_eq!(controller.phase, Phase::Probing);
    assert_eq!(controller.sum_plus, 0);
    assert_eq!(controller.sum_minus, 0);
    assert_eq!(
        controller.next_action(),
        Action::Probe { pivot: u128::MAX / 2, direction: Direction::Increasing }
    );
}

#[test]
fn a_slower_decreasing_side_moves_the_pivot_down() {
    let mut controller = Controller::new(SearchConfig::default());
    let mut last = Ok(None);
    for _ in 0..200 {
        controller.on_event(completed(1_000)).unwrap();
        last = controller.on_event(completed(1_101));
    }
    assert_eq!(
        last,
        Ok(Some(Progress { level: 3, pivot: u128::MAX / 2 - (1 << 126) }))
    );
}

#[test]
fn totals_are_plain_sums_of_the_timings() {
    let mut controller = Controller::new(small_config(3, 10, 126));
    for (plus, minus) in [(5u128, 1u128), (6, 2)] {
        controller.on_event(completed(plus)).unwrap();
        controller.on_event(completed(minus)).unwrap();
    }
    assert_eq!(controller.sum_plus, 11);
    assert_eq!(controller.sum_minus, 3);
    controller.on_event(completed(7)).unwrap();
    assert_eq!(controller.sum_plus, 18);
    let reply = controller.on_event(completed(7));
    assert_eq!(reply, Ok(Some(Progress { level: 2, pivot: u128::MAX / 2 })));

    let mut controller = Controller::new(small_config(3, 10, 126));
    for (plus, minus) in [(5u128, 1u128), (6, 2), (7, 4)] {
        controller.on_event(completed(plus)).unwrap();
        controller.on_event(completed(minus)).unwrap();
    }
    assert_eq!(controller.state.level, 3);
    assert_eq!(controller.state.pivot, u128::MAX / 2 + (1 << 126));
}

#[test]
fn the_longest_timings_still_add_up() {
    let mut controller = Controller::new(small_config(2, 0, 126));
    controller.on_event(completed(MAX_ELAPSED_NANOS)).unwrap();
    controller.on_event(completed(0)).unwrap();
    controller.on_event(completed(MAX_ELAPSED_NANOS)).unwrap();
    assert_eq!(controller.sum_plus, 2 * MAX_ELAPSED_NANOS);
    let reply = controller.on_event(completed(0));
    assert_eq!(
        reply,
        Ok(Some(Progress { level: 3, pivot: u128::MAX / 2 + (1 << 126) }))
    );
}

#[test]
fn a_failed_round_aborts_the_search() {
    let mut controller = Controller::new(SearchConfig::default());
    controller.on_event(completed(5)).unwrap();
    controller.on_event(completed(5)).unwrap();
    controller.on_event(completed(5)).unwrap();
    assert_eq!(controller.on_event(Event::Failed), Err(ConnectionFailed));
    assert_eq!(controller.phase, Phase::Aborted);
    assert_eq!(controller.next_action(), Action::Abort);
    assert_eq!(controller.final_pivot(), None);
}

#[test]
fn a_failure_on_the_first_round_aborts_the_search() {
    let mut controller = Controller::new(SearchConfig::default());
    assert_eq!(controller.on_event(Event::Failed), Err(ConnectionFailed));
    assert_eq!(controller.final_pivot(), None);
}

#[test]
fn an_aborted_search_stays_aborted() {
    let mut controller = Controller::new(small_config(1, 0, 3));
    controller.on_event(Event::Failed).unwrap_err();
    let aborted = controller;
    for event in [completed(1), completed(1_000_000), Event::Failed, completed(0)] {
        assert_eq!(controller.on_event(event), Err(ConnectionFailed));
        assert_eq!(controller, aborted);
        assert_eq!(controller.final_pivot(), None);
    }
}

#[test]
fn the_search_finishes_after_the_last_level() {
    let mut controller = Controller::new(small_config(1, 0, 3));
    controller.on_event(completed(2)).unwrap();
    let first = controller.on_event(completed(1));
    assert_eq!(first, Ok(Some(Progress { level: 3, pivot: u128::MAX / 2 + (1 << 126) })));
    assert_eq!(controller.final_pivot(), None);
    controller.on_event(completed(1)).unwrap();
    let second = controller.on_event(completed(2));
    let found = u128::MAX / 2 + (1 << 126) - (1 << 125);
    assert_eq!(second, Ok(Some(Progress { level: 4, pivot: found })));
    assert_eq!(controller.phase, Phase::Finished);
    assert_eq!(controller.next_action(), Action::Finish { pivot: found });
    assert_eq!(controller.final_pivot(), Some(found));
}

#[test]
fn a_finished_search_is_moved_by_no_event() {
    let mut controller = Controller::new(small_config(1, 0, 2));
    controller.on_event(completed(2)).unwrap();
    controller.on_event(completed(1)).unwrap();
    let finished = controller;
    assert_eq!(finished.phase, Phase::Finished);
    assert_eq!(controller.on_event(completed(9)), Ok(None));
    assert_eq!(controller.on_event(Event::Failed), Ok(None));
    assert_eq!(controller, finished);
}

#[test]
fn a_search_with_no_level_to_search_is_finished_at_once() {
    let controller = Controller::new(small_config(1, 0, 1));
    assert_eq!(controller.phase, Phase::Finished);
    assert_eq!(controller.final_pivot(), Some(u128::MAX / 2));
    assert_eq!(controller.next_action(), Action::Finish { pivot: u128::MAX / 2 });
}

fn run_against_oracle(secret: u128, base: u128, extra: u128) -> (Controller, u64) {
    let mut controller = Controller::new(SearchConfig::default());
    let mut rounds: u64 = 0;
    loop {
        match controller.next_action() {
            Action::Probe { pivot, direction } => {
                let slow = match direction {
                    Direction::Increasing => pivot < secret,
                    Direction::Decreasing => pivot >= secret,
                };
                let elapsed_nanos = if slow { base + extra } else { base };
                controller.on_event(Event::Completed { elapsed_nanos }).unwrap();
                rounds += 1;
            }
            Action::Finish { .. } | Action::Abort => {
                return (controller, rounds);
            }
        }
    }
}

#[test]
fn the_search_converges_on_the_secret_of_a_synthetic_oracle() {
    let secrets = [
        0x0123_4567_89ab_cdef_0123_4567_89ab_cdefu128,
        0xfedc_ba98_7654_3210_fedc_ba98_7654_3210,
        u128::MAX / 2,
        1 << 100,
        0,
        u128::MAX,
    ];
    for secret in secrets {
        let (controller, rounds) = run_against_oracle(secret, 50_000, 101);
        assert_eq!(rounds, 125 * 400);
        assert_eq!(controller.state.level, 127);
        let found = controller.final_pivot().unwrap();
        assert!(found.abs_diff(secret) <= 4);
    }
}

#[test]
fn a_secret_in_the_middle_of_the_space_is_found_to_within_four() {
    let secret = (1u128 << 127) + (1 << 126) + 12345;
    let (controller, _) = run_against_oracle(secret, 50_000, 101);
    let found = controller.final_pivot().unwrap();
    assert!(found.abs_diff(secret) <= 4);
}

#[test]
fn a_failure_late_in_the_search_leaves_no_result() {
    let mut controller = Controller::new(small_config(1, 0, 126));
    for _ in 0..124 {
        controller.on_event(completed(2)).unwrap();
        controller.on_event(completed(1)).unwrap();
    }
    assert_eq!(controller.state.level, 126);
    controller.on_event(completed(2)).unwrap();
    assert_eq!(controller.on_event(Event::Failed), Err(ConnectionFailed));
    assert_eq!(controller.final_pivot(), None);
    assert_eq!(controller.next_action(), Action::Abort);
}
