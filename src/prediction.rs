use vstd::prelude::*;

use std::collections::vec_deque;
use vstd::std_specs::iter::IteratorSpec;
use std::collections::VecDeque;

verus! {

/// Number of distinct sequence numbers.
pub const SEQ_RING: u32 = 0x1_0000;

/// Half the ring: a sequence number this far or further ahead of a reference is judged to lie
/// in the reference's future.
pub const SEQ_HALF_RING: u16 = 0x8000;

/// `a + k` on the ring of sequence numbers.
pub open spec fn seq_offset(a: u16, k: int) -> u16 {
    ((a as int + k) % (SEQ_RING as int)) as u16
}

/// How many steps `b` lies before `a` on the ring of sequence numbers, in `0 .. 65536`.
pub open spec fn seq_distance(a: u16, b: u16) -> nat {
    ((a as int - b as int) % (SEQ_RING as int)) as nat
}

/// Whether an acknowledged `sequence_number` lies ahead of everything recorded before `next`:
/// it is `next` itself, still to be recorded, or at least half the ring before `next`.
pub open spec fn is_ahead(next: u16, sequence_number: u16) -> bool {
    seq_distance(next, sequence_number) == 0 || seq_distance(next, sequence_number) >= SEQ_HALF_RING
}

/// How many of `len` in-flight entries an acknowledgement of `sequence_number` leaves, where it
/// is not ahead: those recorded after it, that is `next - sequence_number - 1` on the ring, at
/// most all of them.
pub open spec fn retained_count(len: nat, next: u16, sequence_number: u16) -> nat {
    let after = (seq_distance(next, sequence_number) - 1) as nat;
    if after < len {
        after
    } else {
        len
    }
}

/// The ledger's entries and next sequence number after an acknowledgement of `sequence_number`.
pub open spec fn reconciled<Input>(entries: Seq<Input>, next: u16, sequence_number: u16) -> (Seq<Input>, u16) {
    if is_ahead(next, sequence_number) {
        (Seq::empty(), seq_offset(sequence_number, 1))
    } else {
        let keep = retained_count(entries.len(), next, sequence_number);
        (entries.subrange(entries.len() - keep, entries.len() as int), next)
    }
}

/// The sequence number of the entry at `index` among `len` entries recorded before `next`.
pub open spec fn sequence_number_at(next: u16, len: nat, index: int) -> u16 {
    seq_offset(next, index - len)
}

/// The ledger's entries and next sequence number after recording `input`.
pub open spec fn recorded<Input>(ledger: (Seq<Input>, u16), input: Input) -> (Seq<Input>, u16) {
    (ledger.0.push(input), seq_offset(ledger.1, 1))
}

/// Acknowledging the sequence number of an in-flight entry drops exactly that entry and every
/// entry recorded before it, where fewer than half the ring of entries were recorded from it on.
pub proof fn lemma_reconcile_recorded<Input>(entries: Seq<Input>, next: u16, index: int)
    requires
        0 <= index < entries.len(),
        entries.len() - index < SEQ_HALF_RING,
    ensures
        reconciled(entries, next, sequence_number_at(next, entries.len(), index)) == (
            entries.subrange(index + 1, entries.len() as int),
            next,
        ),
{
    let s = sequence_number_at(next, entries.len(), index);
    assert(seq_distance(next, s) == entries.len() - index);
    assert(retained_count(entries.len(), next, s) == entries.len() - index - 1);
}

/// Acknowledging the same sequence number twice leaves what the first acknowledgement left.
pub proof fn lemma_reconcile_idempotent<Input>(entries: Seq<Input>, next: u16, sequence_number: u16)
    ensures
        ({
            let once = reconciled(entries, next, sequence_number);
            reconciled(once.0, once.1, sequence_number) == once
        }),
{
    let once = reconciled(entries, next, sequence_number);
    if is_ahead(next, sequence_number) {
        assert(seq_distance(once.1, sequence_number) == 1);
        assert(once.0.subrange(0, 0) =~= once.0);
    } else {
        let keep = retained_count(entries.len(), next, sequence_number);
        assert(once.0.subrange(0, keep as int) =~= once.0);
    }
}

/// An acknowledgement of `b`, older than an earlier acknowledgement of `a`, restores nothing and
/// prunes nothing more, where `b` is not judged ahead of the ledger that the first
/// acknowledgement left.
pub proof fn lemma_reconcile_older_changes_nothing<Input>(
    entries: Seq<Input>,
    next: u16,
    a: u16,
    b: u16,
)
    requires
        seq_distance(a, b) < SEQ_HALF_RING,
        !is_ahead(reconciled(entries, next, a).1, b),
    ensures
        ({
            let first = reconciled(entries, next, a);
            reconciled(first.0, first.1, b) == first
        }),
{
    let first = reconciled(entries, next, a);
    let keep_a = first.0.len();
    assert(first.0.subrange(first.0.len() - keep_a, first.0.len() as int) =~= first.0);
    if is_ahead(next, a) {
        assert(seq_distance(first.1, b) == seq_distance(a, b) + 1);
    } else {
        assert(seq_distance(next, b) == seq_distance(next, a) + seq_distance(a, b));
        assert(entries.subrange(entries.len() - keep_a, entries.len() as int).subrange(
            0,
            keep_a as int,
        ) =~= first.0);
    }
}

/// Moving every sequence number by the same amount around the ring, across zero or not, changes
/// nothing in what an acknowledgement drops, and moves the next sequence number by that amount.
pub proof fn lemma_reconcile_shift<Input>(entries: Seq<Input>, next: u16, sequence_number: u16, k: int)
    ensures
        ({
            let plain = reconciled(entries, next, sequence_number);
            let shifted = reconciled(entries, seq_offset(next, k), seq_offset(sequence_number, k));
            shifted == (plain.0, seq_offset(plain.1, k))
        }),
{
    assert(seq_distance(seq_offset(next, k), seq_offset(sequence_number, k)) == seq_distance(
        next,
        sequence_number,
    ));
    assert(seq_offset(seq_offset(sequence_number, k), 1) == seq_offset(
        seq_offset(sequence_number, 1),
        k,
    ));
}

/// An acknowledgement ahead of everything recorded clears the ledger, and the next input
/// recorded carries the sequence number right after the acknowledged one.
pub proof fn lemma_reconcile_ahead<Input>(
    entries: Seq<Input>,
    next: u16,
    sequence_number: u16,
    input: Input,
)
    requires
        is_ahead(next, sequence_number),
    ensures
        reconciled(entries, next, sequence_number).0 == Seq::<Input>::empty(),
        ({
            let after = recorded(reconciled(entries, next, sequence_number), input);
            &&& after.0 == seq![input]
            &&& sequence_number_at(after.1, 1, 0) == seq_offset(sequence_number, 1)
        }),
{
    let after = recorded(reconciled(entries, next, sequence_number), input);
    assert(after.0 =~= seq![input]);
}

/// Sequence of inputs transmitted to the server.
///
/// Each input is associated with a wrapping *sequence number* used to identify when the server
/// has incorporated that input. Each simulation time step increments the sequence number by one,
/// so the entry at index `i` of `n` in flight carries `next_sequence_number - n + i`.
#[derive(Debug, Clone)]
pub struct PredictionQueue<Input> {
    in_flight: VecDeque<Input>,
    next_sequence_number: u16,
}

impl<Input> View for PredictionQueue<Input> {
    /// The inputs in flight, oldest first, and the sequence number of the next one recorded.
    type V = (Seq<Input>, u16);

    closed spec fn view(&self) -> (Seq<Input>, u16) {
        (self.in_flight@, self.next_sequence_number)
    }
}

impl<Input> PredictionQueue<Input> {
    pub fn new(next_sequence_number: u16) -> (r: Self)
        ensures
            r@ == (Seq::<Input>::empty(), next_sequence_number),
    {
        PredictionQueue { in_flight: VecDeque::new(), next_sequence_number }
    }

    /// Sequence number that will obsolete the next input passed to `record`.
    pub fn next_sequence_number(&self) -> (r: u16)
        ensures
            r == self@.1,
    {
        self.next_sequence_number
    }

    /// Track an input that is being sent to the server.
    ///
    /// Should be called exactly once per simulation time step.
    pub fn record(&mut self, input: Input)
        ensures
            final(self)@ == recorded(old(self)@, input),
    {
        self.in_flight.push_back(input);
        self.next_sequence_number = self.next_sequence_number.wrapping_add(1);
    }

    /// Drop inputs transmitted at or before `sequence_number`.
    ///
    /// Future inputs will be associated with sequence numbers after `sequence_number`, so that
    /// the ledger re-synchronizes after falling behind.
    pub fn reconcile(&mut self, sequence_number: u16)
        ensures
            final(self)@ == reconciled(old(self)@.0, old(self)@.1, sequence_number),
    {
        let diff: u16 = self.next_sequence_number.wrapping_sub(sequence_number);
        if diff == 0 || diff >= SEQ_HALF_RING {
            // `sequence_number` is newer than anything recorded
            self.next_sequence_number = sequence_number.wrapping_add(1);
            self.in_flight.clear();
            return;
        }
        let keep: usize = (diff - 1) as usize;
        let ghost entries = self.in_flight@;
        let len: usize = self.in_flight.len();
        if keep < len {
            let mut dropped: usize = 0;
            while dropped < len - keep
                invariant
                    keep < len,
                    len == entries.len(),
                    dropped <= len - keep,
                    self.in_flight@ == entries.subrange(dropped as int, len as int),
                    self.next_sequence_number == old(self).next_sequence_number,
                decreases len - keep - dropped,
            {
                self.in_flight.pop_front();
                dropped = dropped + 1;
            }
        }
    }

    /// Iterate over stored inputs in the order they were recorded.
    pub fn iter(&self) -> (r: vec_deque::Iter<'_, Input>)
        ensures
            r.remaining() == self@.0.as_ref(),
    {
        self.in_flight.iter()
    }
}

impl<'a, Input> IntoIterator for &'a PredictionQueue<Input> {
    type Item = &'a Input;

    type IntoIter = vec_deque::Iter<'a, Input>;

    fn into_iter(self) -> (r: vec_deque::Iter<'a, Input>)
        ensures
            r.remaining() == self@.0.as_ref(),
    {
        self.in_flight.iter()
    }
}

} // verus!
