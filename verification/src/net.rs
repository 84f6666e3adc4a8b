//! Networking protocol types for the server-authoritative model with
//! client-side prediction.
//!
//! - [`InputCommand`]: one client input frame, tagged with a sequence number
//!   that increases by one per frame and wraps at `u32::MAX`.
//! - [`Snapshot`]: the server's state at a tick, with the highest input
//!   sequence the server has applied.
//! - [`ClientInputBuffer`]: the client's queue of predicted inputs that the
//!   server has not acknowledged yet, replayed after each correction.
use std::collections::VecDeque;
use vstd::prelude::*;

verus! {

/// An input sequence number. It wraps at `u32::MAX`; ordering is decided by
/// serial-number arithmetic, so wrapped numbers still compare as newer.
#[derive(Debug, Clone, Copy, PartialEq, Eq)]
pub struct Sequence(pub u32);

impl Default for Sequence {
    /// Sequence number 0.
    fn default() -> (r: Sequence)
        ensures
            r.0 == 0,
    {
        Sequence(0)
    }
}

/// `(a - b) mod 2^32`: how far `a` is ahead of `b` on the wrapping counter.
pub open spec fn seq_distance(a: u32, b: u32) -> int {
    (a as int - b as int) % 0x1_0000_0000
}

/// `a` is newer than `b` by serial-number arithmetic: it is ahead by a
/// distance in `(0, 2^31)`.
pub open spec fn spec_is_newer(a: Sequence, b: Sequence) -> bool {
    0 < seq_distance(a.0, b.0) < 0x8000_0000
}

impl Sequence {
    /// The following sequence number, wrapping to 0 after `u32::MAX`.
    pub fn next(self) -> (r: Sequence)
        ensures
            r.0 == (self.0 as int + 1) % 0x1_0000_0000,
    {
        Sequence(self.0.wrapping_add(1))
    }

    /// True if `self` is newer than `other`, accounting for wraparound.
    pub fn is_newer_than(self, other: Sequence) -> (r: bool)
        ensures
            r == spec_is_newer(self, other),
    {
        let diff = self.0.wrapping_sub(other.0);
        diff > 0 && diff < 0x8000_0000
    }
}

/// A single client input frame. The payload layout is up to the game.
#[derive(Debug, Clone, PartialEq, Eq)]
pub struct InputCommand {
    pub sequence: Sequence,
    pub payload: Vec<u8>,
}

impl InputCommand {
    pub fn new(sequence: Sequence, payload: Vec<u8>) -> (r: InputCommand)
        ensures
            r.sequence == sequence,
            r.payload@ == payload@,
    {
        InputCommand { sequence, payload }
    }
}

/// The server's authoritative state at a tick.
#[derive(Debug, Clone, PartialEq, Eq)]
pub struct Snapshot {
    /// The simulation tick this snapshot was taken at.
    pub tick: u64,
    /// The highest client input sequence applied to produce this state.
    pub last_acknowledged: Sequence,
    /// Serialized authoritative state.
    pub state: Vec<u8>,
}

impl Snapshot {
    pub fn new(tick: u64, last_acknowledged: Sequence, state: Vec<u8>) -> (r: Snapshot)
        ensures
            r.tick == tick,
            r.last_acknowledged == last_acknowledged,
            r.state@ == state@,
    {
        Snapshot { tick, last_acknowledged, state }
    }
}

/// The client's queue of predicted inputs not yet acknowledged by the server,
/// oldest first.
#[derive(Debug)]
pub struct ClientInputBuffer {
    pending: VecDeque<InputCommand>,
}

/// Keeps the commands that the acknowledgement `ack` does not cover.
pub open spec fn unacknowledged(ack: Sequence) -> spec_fn(InputCommand) -> bool {
    |c: InputCommand| spec_is_newer(c.sequence, ack)
}

impl View for ClientInputBuffer {
    type V = Seq<InputCommand>;

    closed spec fn view(&self) -> Seq<InputCommand> {
        self.pending@
    }
}

impl ClientInputBuffer {
    pub fn new() -> (r: ClientInputBuffer)
        ensures
            r@ == Seq::<InputCommand>::empty(),
    {
        ClientInputBuffer { pending: VecDeque::new() }
    }
}

impl Default for ClientInputBuffer {
    /// An empty buffer.
    fn default() -> (r: ClientInputBuffer)
        ensures
            r@ == Seq::<InputCommand>::empty(),
    {
        ClientInputBuffer::new()
    }
}

impl ClientInputBuffer {

    /// Appends a newly captured predicted input at the back.
    pub fn push(&mut self, command: InputCommand)
        ensures
            final(self)@ == old(self)@.push(command),
    {
        self.pending.push_back(command);
    }

    /// Number of inputs still pending replay.
    pub fn len(&self) -> (r: usize)
        ensures
            r == self@.len(),
    {
        self.pending.len()
    }

    pub fn is_empty(&self) -> (r: bool)
        ensures
            r == (self@.len() == 0),
    {
        self.pending.len() == 0
    }

    /// Drops every input the server has acknowledged (every input that is
    /// not newer than `last_acknowledged`), keeping the rest in order.
    pub fn discard_acknowledged(&mut self, last_acknowledged: Sequence)
        ensures
            final(self)@ == old(self)@.filter(unacknowledged(last_acknowledged)),
    {
        let ghost orig = self.pending@;
        let ghost pred = unacknowledged(last_acknowledged);
        let mut rest: VecDeque<InputCommand> = VecDeque::new();
        std::mem::swap(&mut rest, &mut self.pending);
        let n = rest.len();
        let mut i: usize = 0;
        while i < n
            invariant
                n == orig.len(),
                i <= n,
                pred == unacknowledged(last_acknowledged),
                rest@ == orig.skip(i as int),
                self.pending@ == orig.take(i as int).filter(pred),
            decreases n - i,
        {
            let cmd = rest.pop_front().unwrap();
            let ghost before = self.pending@;
            proof {
                assert(orig.take(i + 1).drop_last() =~= orig.take(i as int));
                assert(orig.take(i + 1).last() == orig[i as int]);
                assert(cmd == orig[i as int]);
                reveal_with_fuel(Seq::filter, 1);
                assert(orig.take(i + 1).filter(pred) == if pred(cmd) {
                    before.push(cmd)
                } else {
                    before
                });
            }
            if cmd.sequence.is_newer_than(last_acknowledged) {
                self.pending.push_back(cmd);
            }
            i = i + 1;
            assert(rest@ =~= orig.skip(i as int));
        }
        assert(orig.take(n as int) =~= orig);
    }

    /// The pending inputs in sequence order, for replay on top of the
    /// server-corrected state.
    pub fn replay_pending(&self) -> (r: &VecDeque<InputCommand>)
        ensures
            r@ == self@,
    {
        &self.pending
    }

    /// The most recently pushed pending sequence, or `None` if empty.
    pub fn latest_pending(&self) -> (r: Option<Sequence>)
        ensures
            r == (if self@.len() == 0 {
                None
            } else {
                Some(self@.last().sequence)
            }),
    {
        let n = self.pending.len();
        if n == 0 {
            None
        } else {
            Some(self.pending[n - 1].sequence)
        }
    }
}

/// A sequence number is never newer than itself.
pub proof fn law_newer_is_irreflexive(s: Sequence)
    ensures
        !spec_is_newer(s, s),
{
}

/// Two sequence numbers are never each newer than the other.
pub proof fn law_newer_is_asymmetric(a: Sequence, b: Sequence)
    ensures
        !(spec_is_newer(a, b) && spec_is_newer(b, a)),
{
}

/// The next sequence number is newer than the current one, also across the
/// wrap at `u32::MAX`.
pub proof fn law_next_is_newer(s: Sequence)
    ensures
        spec_is_newer(Sequence(((s.0 as int + 1) % 0x1_0000_0000) as u32), s),
{
}

/// After a snapshot acknowledges `ack`, nothing that is left pending is
/// covered by `ack`, and every pending input newer than `ack` is kept.
pub proof fn law_discard_keeps_exactly_unacknowledged(pending: Seq<InputCommand>, ack: Sequence)
    ensures
        forall|i: int|
            0 <= i < pending.filter(unacknowledged(ack)).len() ==> spec_is_newer(
                #[trigger] pending.filter(unacknowledged(ack))[i].sequence,
                ack,
            ),
        forall|i: int|
            0 <= i < pending.len() && spec_is_newer(pending[i].sequence, ack)
                ==> pending.filter(unacknowledged(ack)).contains(#[trigger] pending[i]),
{
    broadcast use vstd::seq_lib::group_filter_ensures;

    assert forall|i: int|
        0 <= i < pending.filter(unacknowledged(ack)).len() implies spec_is_newer(
        #[trigger] pending.filter(unacknowledged(ack))[i].sequence,
        ack,
    ) by {
        pending.lemma_filter_pred(unacknowledged(ack), i);
    }
    assert forall|i: int|
        0 <= i < pending.len() && spec_is_newer(pending[i].sequence, ack)
            implies pending.filter(unacknowledged(ack)).contains(#[trigger] pending[i]) by {
        pending.lemma_filter_contains(unacknowledged(ack), i);
    }
}

} // verus!
