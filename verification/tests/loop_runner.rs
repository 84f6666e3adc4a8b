use pie_runtime::loop_runner::{MainLoopLimits, StopSignal};

#[test]
fn stop_signal_starts_running() {
    let signal = StopSignal::new();

    assert!(signal.should_continue());
}

#[test]
fn stop_signal_stops_when_told() {
    let signal = StopSignal::new();

    signal.stop();

    assert!(!signal.should_continue());
}

#[test]
fn cloned_stop_signal_shares_state() {
    let signal = StopSignal::new();
    let cloned = signal.clone();

    cloned.stop();

    assert!(!signal.should_continue());
}

#[test]
fn main_loop_limits_are_checked_against_completed_steps() {
    let unlimited = MainLoopLimits::default();
    assert!(!unlimited.reached(u64::MAX));
    let two = MainLoopLimits { max_steps: Some(2) };
    assert!(!two.reached(1));
    assert!(two.reached(2));
    assert!(two.reached(15));
}
