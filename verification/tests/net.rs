use pie_runtime::net::{ClientInputBuffer, InputCommand, Sequence, Snapshot};

#[test]
fn sequence_next_increments() {
    let s = Sequence(5);
    assert_eq!(s.next(), Sequence(6));
}

#[test]
fn sequence_next_wraps_at_max() {
    let s = Sequence(u32::MAX);
    assert_eq!(s.next(), Sequence(0));
}

#[test]
fn sequence_is_newer_than_handles_normal_ordering() {
    assert!(Sequence(10).is_newer_than(Sequence(5)));
    assert!(!Sequence(5).is_newer_than(Sequence(10)));
    assert!(!Sequence(5).is_newer_than(Sequence(5)));
}

#[test]
fn sequence_is_newer_than_handles_wraparound() {
    assert!(Sequence(2).is_newer_than(Sequence(u32::MAX)));
    assert!(!Sequence(u32::MAX).is_newer_than(Sequence(2)));
}

#[test]
fn input_command_carries_sequence_and_payload() {
    let cmd = InputCommand::new(Sequence(42), vec![1, 2, 3]);
    assert_eq!(cmd.sequence, Sequence(42));
    assert_eq!(cmd.payload, vec![1, 2, 3]);
}

#[test]
fn snapshot_carries_tick_ack_and_state() {
    let snap = Snapshot::new(100, Sequence(98), vec![0xAA; 16]);
    assert_eq!(snap.tick, 100);
    assert_eq!(snap.last_acknowledged, Sequence(98));
    assert_eq!(snap.state.len(), 16);
}

#[test]
fn buffer_push_and_len() {
    let mut buf = ClientInputBuffer::new();
    assert!(buf.is_empty());
    buf.push(InputCommand::new(Sequence(1), vec![]));
    buf.push(InputCommand::new(Sequence(2), vec![]));
    assert_eq!(buf.len(), 2);
    assert_eq!(buf.latest_pending(), Some(Sequence(2)));
}

#[test]
fn discard_acknowledged_drops_inputs_at_or_below_the_ack() {
    let mut buf = ClientInputBuffer::new();
    for s in 1..=5u32 {
        buf.push(InputCommand::new(Sequence(s), vec![]));
    }
    buf.discard_acknowledged(Sequence(3));
    let remaining: Vec<u32> = buf.replay_pending().iter().map(|c| c.sequence.0).collect();
    assert_eq!(remaining, vec![4, 5]);
}

#[test]
fn discard_acknowledged_with_wraparound() {
    let mut buf = ClientInputBuffer::new();
    buf.push(InputCommand::new(Sequence(u32::MAX), vec![]));
    buf.push(InputCommand::new(Sequence(0), vec![]));
    buf.push(InputCommand::new(Sequence(1), vec![]));
    buf.discard_acknowledged(Sequence(u32::MAX));
    let remaining: Vec<u32> = buf.replay_pending().iter().map(|c| c.sequence.0).collect();
    assert_eq!(remaining, vec![0, 1]);
}

#[test]
fn replay_pending_preserves_sequence_order() {
    let mut buf = ClientInputBuffer::new();
    for s in 10..=13u32 {
        buf.push(InputCommand::new(Sequence(s), vec![s as u8]));
    }
    let seqs: Vec<u32> = buf.replay_pending().iter().map(|c| c.sequence.0).collect();
    assert_eq!(seqs, vec![10, 11, 12, 13]);
}

#[test]
fn full_prediction_reconciliation_cycle() {
    let mut buf = ClientInputBuffer::new();
    for s in 1..=5u32 {
        buf.push(InputCommand::new(Sequence(s), vec![s as u8]));
    }
    assert_eq!(buf.len(), 5);

    let snap = Snapshot::new(103, Sequence(3), vec![0xFF; 8]);
    buf.discard_acknowledged(snap.last_acknowledged);

    assert_eq!(buf.len(), 2, "only seqs 4 and 5 should remain");
    let replayed: Vec<u32> = buf.replay_pending().iter().map(|c| c.sequence.0).collect();
    assert_eq!(replayed, vec![4, 5]);
}

#[test]
fn newer_is_irreflexive_and_asymmetric_on_samples() {
    let samples = [0u32, 1, 2, 1000, 0x7fff_ffff, 0x8000_0000, 0x8000_0001, u32::MAX - 1, u32::MAX];
    for &a in &samples {
        assert!(!Sequence(a).is_newer_than(Sequence(a)));
        assert!(Sequence(a).next().is_newer_than(Sequence(a)));
        for &b in &samples {
            assert!(!(Sequence(a).is_newer_than(Sequence(b)) && Sequence(b).is_newer_than(Sequence(a))));
        }
    }
}

#[test]
fn discard_acknowledged_keeps_exactly_the_newer_inputs_in_order() {
    let mut buf = ClientInputBuffer::new();
    for s in [7u32, 3, 9, 1, 8] {
        buf.push(InputCommand::new(Sequence(s), vec![]));
    }
    buf.discard_acknowledged(Sequence(7));
    let remaining: Vec<u32> = buf.replay_pending().iter().map(|c| c.sequence.0).collect();
    assert_eq!(remaining, vec![9, 8]);
    assert_eq!(buf.latest_pending(), Some(Sequence(8)));
}

#[test]
fn latest_pending_is_none_when_empty() {
    let buf = ClientInputBuffer::new();
    assert_eq!(buf.latest_pending(), None);
    assert_eq!(buf.len(), 0);
}

#[test]
fn newer_covers_distances_below_half_the_counter() {
    assert!(Sequence(0x7fff_ffff).is_newer_than(Sequence(0)));
    assert!(Sequence(0x7fff_fffe).is_newer_than(Sequence(0)));
    assert!(!Sequence(0x8000_0000).is_newer_than(Sequence(0)));
    assert!(!Sequence(0).is_newer_than(Sequence(0x7fff_ffff)));
    assert!(Sequence(5).is_newer_than(Sequence(0x8000_0006)));
}

#[test]
fn defaults_are_zero_and_empty() {
    assert_eq!(Sequence::default(), Sequence(0));
    assert!(ClientInputBuffer::default().is_empty());
}
