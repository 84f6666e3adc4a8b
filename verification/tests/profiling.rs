use pie_runtime::profiling::{Duration, FramePhase, FrameTiming, FrameTimingHistory};

#[test]
fn frame_timing_default_is_all_zero() {
    let t = FrameTiming::default();
    assert_eq!(t.input, Duration::zero());
    assert_eq!(t.sim, Duration::zero());
    assert_eq!(t.render, Duration::zero());
    assert_eq!(t.present, Duration::zero());
    assert_eq!(t.total(), Duration::zero());
}

#[test]
fn frame_timing_total_sums_all_phases() {
    let t = FrameTiming {
        input: Duration::from_micros(10),
        sim: Duration::from_micros(20),
        render: Duration::from_micros(30),
        present: Duration::from_micros(40),
    };
    assert_eq!(t.total(), Duration::from_micros(100));
}

#[test]
fn frame_phase_ordered_and_labels_are_stable() {
    assert_eq!(
        FramePhase::ordered(),
        [FramePhase::Input, FramePhase::Sim, FramePhase::Render, FramePhase::Present]
    );
    assert_eq!(FramePhase::Input.label(), "input");
    assert_eq!(FramePhase::Sim.label(), "sim");
    assert_eq!(FramePhase::Render.label(), "render");
    assert_eq!(FramePhase::Present.label(), "present");
}

#[test]
fn history_push_retains_up_to_capacity() {
    let mut h = FrameTimingHistory::new(3);
    assert!(h.is_empty());
    assert_eq!(h.len(), 0);

    for i in 0u64..5 {
        h.push(FrameTiming { input: Duration::from_micros(i), ..Default::default() });
    }
    assert_eq!(h.len(), 3, "capacity 3 should retain only the last 3");
    assert_eq!(h.samples()[0].input, Duration::from_micros(2));
    assert_eq!(h.samples()[2].input, Duration::from_micros(4));
    assert_eq!(h.last().unwrap().input, Duration::from_micros(4));
}

#[test]
fn history_capacity_zero_is_a_noop_sink() {
    let mut h = FrameTimingHistory::new(0);
    h.push(FrameTiming::default());
    assert!(h.is_empty());
    assert_eq!(h.len(), 0);
    assert_eq!(h.capacity(), 0);
}

#[test]
fn history_average_is_zero_when_empty() {
    let h = FrameTimingHistory::new(16);
    let avg = h.average();
    assert_eq!(avg, FrameTiming::default());
}

#[test]
fn history_average_is_arithmetic_mean_per_phase() {
    let mut h = FrameTimingHistory::new(16);
    h.push(FrameTiming { sim: Duration::from_micros(100), ..Default::default() });
    h.push(FrameTiming { sim: Duration::from_micros(300), ..Default::default() });
    let avg = h.average();
    assert_eq!(avg.sim, Duration::from_micros(200));
    assert_eq!(avg.input, Duration::zero());
}

#[test]
fn history_max_total_picks_the_worst_frame() {
    let mut h = FrameTimingHistory::new(16);
    h.push(FrameTiming { sim: Duration::from_micros(100), ..Default::default() });
    h.push(FrameTiming {
        sim: Duration::from_micros(500),
        render: Duration::from_micros(200),
        ..Default::default()
    });
    h.push(FrameTiming { sim: Duration::from_micros(60), ..Default::default() });
    assert_eq!(h.max_total(), Duration::from_micros(700));
}

#[test]
fn as_micros_tuple_round_trips_durations() {
    let t = FrameTiming {
        input: Duration::from_micros(1),
        sim: Duration::from_micros(2),
        render: Duration::from_micros(3),
        present: Duration::from_micros(4),
    };
    assert_eq!(t.as_micros_tuple(), (1, 2, 3, 4));
}

#[test]
fn history_default_uses_default_capacity() {
    let h = FrameTimingHistory::default();
    assert_eq!(h.capacity(), FrameTimingHistory::DEFAULT_CAPACITY);
    assert_eq!(h.capacity(), 128);
}

#[test]
fn history_keeps_the_latest_window_after_many_pushes() {
    let mut h = FrameTimingHistory::new(4);
    for i in 0u64..10 {
        h.push(FrameTiming { present: Duration::from_millis(i), ..Default::default() });
        assert!(h.len() <= 4);
    }
    let kept: Vec<u64> = h.samples().iter().map(|t| t.present.as_secs() * 1000 + (t.present.subsec_nanos() / 1_000_000) as u64).collect();
    assert_eq!(kept, vec![6, 7, 8, 9]);
}

#[test]
fn average_floors_each_phase() {
    let mut h = FrameTimingHistory::new(8);
    h.push(FrameTiming { render: Duration::from_nanos(1), ..Default::default() });
    h.push(FrameTiming { render: Duration::from_nanos(2), ..Default::default() });
    assert_eq!(h.average().render, Duration::from_nanos(1));
}

#[test]
fn duration_constructors_normalise() {
    assert_eq!(Duration::new(1, 1_500_000_000), Duration::new(2, 500_000_000));
    assert_eq!(Duration::from_millis(1500).as_secs(), 1);
    assert_eq!(Duration::from_millis(1500).subsec_nanos(), 500_000_000);
    assert_eq!(Duration::from_secs(3).as_micros(), 3_000_000);
    assert_eq!(Duration::from_micros(7).as_nanos(), 7_000);
    assert_eq!(Duration::from_secs(u64::MAX).checked_add(Duration::from_secs(1)), None);
    assert_eq!(Duration::from_secs(1).checked_div(0), None);
    assert_eq!(Duration::from_secs(1).checked_div(4), Some(Duration::from_millis(250)));
    assert!(Duration::from_micros(1).is_shorter_than(&Duration::from_micros(2)));
}

#[test]
fn frame_timing_phase_reads_each_field() {
    let t = FrameTiming {
        input: Duration::from_micros(1),
        sim: Duration::from_micros(2),
        render: Duration::from_micros(3),
        present: Duration::from_micros(4),
    };
    assert_eq!(t.phase(FramePhase::Input), Duration::from_micros(1));
    assert_eq!(t.phase(FramePhase::Sim), Duration::from_micros(2));
    assert_eq!(t.phase(FramePhase::Render), Duration::from_micros(3));
    assert_eq!(t.phase(FramePhase::Present), Duration::from_micros(4));
}

#[test]
fn frame_timing_default_totals_zero() {
    assert_eq!(FrameTiming::default().total(), Duration::zero());
    let h = FrameTimingHistory::new(3);
    let copy = h.clone();
    assert_eq!(copy.capacity(), 3);
    assert!(copy.is_empty());
}
