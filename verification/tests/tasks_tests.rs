use bubble::tasks::{plan_dispatchers, split_to_two_kinds, FrameQueue, DEFAULT_FRAME_DELAY, DEFAULT_TICK_TIMEOUT_MS};
use bubble::tasks::{
    blocked_step, choose_performance_dispatcher, drain_step, mimic_tick_step, next_calcellation_id,
    poll_wait, queue_step, set_counter, stop_requested, tick_mode, tick_result, AffinityHint,
    CancellableTicket, LoopStep, MimicTickState, TickMode, TimerSignal,
};

#[test]
fn cancellation_needs_permission_and_request() {
    assert!(!stop_requested(false, false));
    assert!(!stop_requested(false, true));
    assert!(!stop_requested(true, false));
    assert!(stop_requested(true, true));

    let ticket = CancellableTicket::new();
    let shared = ticket.clone();
    assert!(!ticket.allow_cancel());
    assert!(!ticket.is_canceled());
    shared.cancel();
    assert!(ticket.is_canceled());
    assert!(!ticket.should_stop());
    ticket.set_allow_cancel(true);
    assert!(shared.allow_cancel());
    assert!(shared.should_stop());
}

#[test]
fn dispatcher_choice() {
    assert!(choose_performance_dispatcher(None, true));
    assert!(choose_performance_dispatcher(Some(AffinityHint::Performance), true));
    assert!(!choose_performance_dispatcher(Some(AffinityHint::Efficiency), true));
    assert!(choose_performance_dispatcher(Some(AffinityHint::Efficiency), false));
}

#[test]
fn calcellation_ids_count_up_and_wrap() {
    let (id, next) = next_calcellation_id(41);
    assert_eq!(id.0, 41);
    assert_eq!(next, 42);
    let (id, next) = next_calcellation_id(u64::MAX);
    assert_eq!(id.0, u64::MAX);
    assert_eq!(next, 0);
}

#[test]
fn tick_modes_and_results() {
    assert!(tick_mode(Some(true)) == TickMode::Queue);
    assert!(tick_mode(Some(false)) == TickMode::Drain);
    assert!(tick_mode(None) == TickMode::Blocked);
    assert!(tick_result(TickMode::Queue));
    assert!(!tick_result(TickMode::Drain));
    assert!(tick_result(TickMode::Blocked));
}

#[test]
fn loop_steps() {
    assert!(queue_step(true, TimerSignal::Fired) == LoopStep::Exit);
    assert!(queue_step(false, TimerSignal::Dropped) == LoopStep::Exit);
    assert!(queue_step(true, TimerSignal::Dropped) == LoopStep::PollNow);
    assert!(queue_step(true, TimerSignal::Pending) == LoopStep::PollNow);
    assert!(queue_step(false, TimerSignal::Pending) == LoopStep::PollWait);
    assert!(poll_wait(true, true) == LoopStep::PollNow);
    assert!(poll_wait(false, false) == LoopStep::PollNow);
    assert!(poll_wait(false, true) == LoopStep::PollUntilTimeout);
    assert!(drain_step(true, false, true) == LoopStep::Exit);
    assert!(drain_step(false, true, true) == LoopStep::PollUntilTimeout);
    assert!(blocked_step(1, false, true) == LoopStep::Exit);
    assert!(blocked_step(0, true, true) == LoopStep::PollNow);
    assert!(blocked_step(0, false, true) == LoopStep::PollUntilTimeout);
}

#[test]
fn mimic_tick_stops_at_the_set_counter() {
    let mut state = MimicTickState::new();
    assert_eq!(state.tick_to, 200);
    set_counter(&mut state, 2);
    assert!(mimic_tick_step(&mut state));
    assert!(mimic_tick_step(&mut state));
    assert!(!mimic_tick_step(&mut state));
    assert!(mimic_tick_step(&mut state));
    assert_eq!(state.counter, 4);
    let mut high = MimicTickState { counter: i32::MAX, tick_to: 0 };
    assert!(mimic_tick_step(&mut high));
    assert_eq!(high.counter, i32::MIN);
}

#[test]
fn cpu_kinds_split_in_two() {
    let little = vec![true, true, false, false];
    let big = vec![false, false, true];
    let prime = vec![false, false, false, false, false, true];
    let (first, rest) = split_to_two_kinds(&vec![little.clone(), big.clone(), prime.clone()]);
    assert_eq!(first, little);
    let rest = rest.unwrap();
    let cpus: Vec<usize> = (0..rest.len()).filter(|&i| rest[i]).collect();
    assert_eq!(cpus, vec![2, 5]);
    let (only, none) = split_to_two_kinds(&vec![little.clone()]);
    assert_eq!(only, little);
    assert!(none.is_none());
}

#[test]
fn dispatcher_plans() {
    let plan = plan_dispatchers((8, None), None);
    assert_eq!(plan.performance_threads, 8);
    assert!(plan.performance_cpus.is_none());
    assert!(plan.efficiency.is_none());
    let plan = plan_dispatchers((8, Some(2)), Some((vec![true], Some(vec![false, true]))));
    assert_eq!(plan.performance_cpus, Some(vec![false, true]));
    assert_eq!(plan.efficiency, Some((2, vec![true])));
    let plan = plan_dispatchers((6, None), Some((vec![true], Some(vec![false, true]))));
    assert_eq!(plan.efficiency.map(|e| e.0), Some(6));
    let plan = plan_dispatchers((6, Some(0)), Some((vec![true], None)));
    assert!(plan.efficiency.is_none());
}

#[test]
fn frame_results_lag_the_frame_delay() {
    assert_eq!(DEFAULT_FRAME_DELAY, 3);
    assert_eq!(DEFAULT_TICK_TIMEOUT_MS, 16);
    let mut q = FrameQueue::new(DEFAULT_FRAME_DELAY);
    assert_eq!(q.len(), 3);
    q.send(false);
    assert_eq!(q.try_recv(), Some(true));
    q.send(true);
    assert_eq!(q.try_recv(), Some(true));
    assert_eq!(q.try_recv(), Some(true));
    assert_eq!(q.try_recv(), Some(false));
    assert_eq!(q.try_recv(), Some(true));
    assert_eq!(q.try_recv(), None);
    assert_eq!(q.len(), 0);
}
