use vstd::prelude::*;

use std::collections::VecDeque;

use crate::time::{sat_sub, Duration, Instant};

verus! {

/// The queued inputs, oldest first, and the start of the current run, if one is in progress.
pub type QueueState<T> = (Seq<T>, Option<nat>);

/// The state after `input` is pushed at `now` into a queue bounded by `max`: where the queue
/// already holds `max` inputs, the oldest one makes room; a run starts at `now` unless one is in
/// progress.
pub open spec fn pushed<T>(state: QueueState<T>, max: nat, input: T, now: nat) -> QueueState<T> {
    let kept = if state.0.len() == max && max > 0 {
        state.0.subrange(1, state.0.len() as int)
    } else {
        state.0
    };
    (kept.push(input), if state.1 is Some { state.1 } else { Some(now) })
}

/// Whether at least `delay` has passed from the start of the current run to `now`.
pub open spec fn is_ready(epoch: Option<nat>, now: nat, delay: nat) -> bool {
    epoch is Some && sat_sub(now, epoch->0) >= delay
}

/// What a take at `now` hands out, and the state after it. Before the run has aged by `delay`,
/// nothing, and the state stays. After that the oldest input; or, on an empty queue, nothing,
/// and the run ends.
pub open spec fn taken<T>(state: QueueState<T>, now: nat, delay: nat) -> (Option<T>, QueueState<T>) {
    if !is_ready(state.1, now, delay) {
        (None, state)
    } else if state.0.len() == 0 {
        (None, (state.0, None))
    } else {
        (Some(state.0[0]), (state.0.subrange(1, state.0.len() as int), state.1))
    }
}

/// After a push that starts a run, a take before `delay` has passed hands out nothing and
/// leaves the queue as it is.
pub proof fn lemma_take_waits_for_delay<T>(
    state: QueueState<T>,
    max: nat,
    input: T,
    pushed_at: nat,
    now: nat,
    delay: nat,
)
    requires
        state.1 is None,
        sat_sub(now, pushed_at) < delay,
    ensures
        ({
            let after = pushed(state, max, input, pushed_at);
            taken(after, now, delay) == (None::<T>, after)
        }),
{
}

/// Once the run has aged by `delay`, each take hands out the oldest input and keeps the run,
/// so that every later take is ready too: the inputs come out in the order they were pushed,
/// one per take, until the queue is empty.
pub proof fn lemma_take_in_order<T>(state: QueueState<T>, now: nat, later: nat, delay: nat)
    requires
        is_ready(state.1, now, delay),
        state.0.len() > 0,
        now <= later,
    ensures
        taken(state, now, delay) == (
            Some(state.0[0]),
            (state.0.subrange(1, state.0.len() as int), state.1),
        ),
        is_ready(taken(state, now, delay).1.1, later, delay),
{
}

/// A ready take on an empty queue ends the run: the next push starts a new one, and a take
/// before `delay` has passed from that push hands out nothing again.
pub proof fn lemma_underrun_restarts_delay<T>(
    state: QueueState<T>,
    now: nat,
    delay: nat,
    max: nat,
    input: T,
    pushed_at: nat,
    later: nat,
)
    requires
        state.0.len() == 0,
        is_ready(state.1, now, delay),
        sat_sub(later, pushed_at) < delay,
    ensures
        ({
            let drained = taken(state, now, delay);
            let refilled = pushed(drained.1, max, input, pushed_at);
            &&& drained == (None::<T>, (state.0, None::<nat>))
            &&& refilled.1 == Some(pushed_at)
            &&& taken(refilled, later, delay) == (None::<T>, refilled)
        }),
{
}

/// The state after pushing `inputs` in turn, the one at index `i` at `times[i]`.
pub open spec fn pushed_in_turn<T>(state: QueueState<T>, max: nat, inputs: Seq<T>, times: Seq<nat>) -> QueueState<T>
    decreases inputs.len(),
{
    if inputs.len() == 0 || times.len() == 0 {
        state
    } else {
        pushed_in_turn(
            pushed(state, max, inputs[0], times[0]),
            max,
            inputs.drop_first(),
            times.drop_first(),
        )
    }
}

/// What takes at `times`, in turn, hand out, and the state after the last of them.
pub open spec fn taken_in_turn<T>(state: QueueState<T>, times: Seq<nat>, delay: nat) -> (Seq<Option<T>>, QueueState<T>)
    decreases times.len(),
{
    if times.len() == 0 {
        (Seq::empty(), state)
    } else {
        let first = taken(state, times[0], delay);
        let rest = taken_in_turn(first.1, times.drop_first(), delay);
        (seq![first.0] + rest.0, rest.1)
    }
}

/// Pushes that leave room in the queue append their inputs in order, and the first push into a
/// queue with no run in progress starts the run.
pub proof fn lemma_pushes_append<T>(state: QueueState<T>, max: nat, inputs: Seq<T>, times: Seq<nat>)
    requires
        inputs.len() == times.len(),
        state.0.len() + inputs.len() <= max,
    ensures
        pushed_in_turn(state, max, inputs, times) == (
            state.0 + inputs,
            if state.1 is Some || inputs.len() == 0 {
                state.1
            } else {
                Some(times[0])
            },
        ),
    decreases inputs.len(),
{
    if inputs.len() > 0 {
        let next = pushed(state, max, inputs[0], times[0]);
        lemma_pushes_append(next, max, inputs.drop_first(), times.drop_first());
        assert(next.0 + inputs.drop_first() =~= state.0 + inputs);
    } else {
        assert(state.0 + inputs =~= state.0);
    }
}

/// Takes at times at least `delay` after the start of the run hand out the queued inputs in
/// order, one per take; a take on the emptied queue hands out nothing and ends the run.
pub proof fn lemma_takes_in_order<T>(state: QueueState<T>, times: Seq<nat>, delay: nat)
    requires
        state.1 is Some,
        forall|i: int| 0 <= i < times.len() ==> times[i] >= state.1->0 + delay,
        times.len() <= state.0.len() + 1,
    ensures
        ({
            let (out, after) = taken_in_turn(state, times, delay);
            &&& out.len() == times.len()
            &&& forall|i: int|
                0 <= i < times.len() ==> out[i] == if i < state.0.len() {
                    Some(state.0[i])
                } else {
                    None::<T>
                }
            &&& after == if times.len() <= state.0.len() {
                (state.0.subrange(times.len() as int, state.0.len() as int), state.1)
            } else {
                (Seq::<T>::empty(), None::<nat>)
            }
        }),
    decreases times.len(),
{
    if times.len() > 0 {
        let first = taken(state, times[0], delay);
        if state.0.len() > 0 {
            assert(first.1 == (state.0.subrange(1, state.0.len() as int), state.1));
            lemma_takes_in_order(first.1, times.drop_first(), delay);
            let rest = taken_in_turn(first.1, times.drop_first(), delay);
            let out = seq![first.0] + rest.0;
            assert forall|i: int| 0 <= i < times.len() implies out[i] == if i < state.0.len() {
                Some(state.0[i])
            } else {
                None::<T>
            } by {
                if i > 0 {
                    assert(out[i] == rest.0[i - 1]);
                }
            }
            if times.len() <= state.0.len() {
                assert(first.1.0.subrange(times.len() - 1, first.1.0.len() as int)
                    =~= state.0.subrange(times.len() as int, state.0.len() as int));
            }
        } else {
            assert(times.drop_first().len() == 0);
            assert(state.0 =~= Seq::<T>::empty());
        }
    } else {
        assert(state.0.subrange(0, state.0.len() as int) =~= state.0);
    }
}

/// From an empty queue with no run in progress, `n` pushes that fit the bound and then up to
/// `n + 1` takes, each at least `delay` after the first push, hand out the inputs in push
/// order, one per take, and then nothing, ending the run.
pub proof fn lemma_push_then_take_in_order<T>(
    max: nat,
    inputs: Seq<T>,
    push_times: Seq<nat>,
    take_times: Seq<nat>,
    delay: nat,
)
    requires
        0 < inputs.len() <= max,
        inputs.len() == push_times.len(),
        forall|i: int| 0 <= i < take_times.len() ==> take_times[i] >= push_times[0] + delay,
        take_times.len() <= inputs.len() + 1,
    ensures
        ({
            let filled = pushed_in_turn((Seq::<T>::empty(), None::<nat>), max, inputs, push_times);
            let (out, after) = taken_in_turn(filled, take_times, delay);
            &&& forall|i: int|
                0 <= i < take_times.len() ==> out[i] == if i < inputs.len() {
                    Some(inputs[i])
                } else {
                    None::<T>
                }
            &&& take_times.len() > inputs.len() ==> after.1 is None
        }),
{
    let empty = (Seq::<T>::empty(), None::<nat>);
    lemma_pushes_append(empty, max, inputs, push_times);
    assert(empty.0 + inputs =~= inputs);
    let filled = pushed_in_turn(empty, max, inputs, push_times);
    lemma_takes_in_order(filled, take_times, delay);
}

/// A push never grows a queue that holds at most `max` inputs past `max`; where the queue is
/// full, the oldest input is the one dropped.
pub proof fn lemma_push_bounded<T>(state: QueueState<T>, max: nat, input: T, now: nat)
    requires
        max > 0,
        state.0.len() <= max,
    ensures
        pushed(state, max, input, now).0.len() <= max,
        state.0.len() == max ==> pushed(state, max, input, now).0 == state.0.subrange(
            1,
            max as int,
        ).push(input),
        state.0.len() < max ==> pushed(state, max, input, now).0 == state.0.push(input),
{
}

/// A jitter-tolerant queue of inputs received from a client.
///
/// Clients send a stream of input roughly at tickrate, but with an undefined time offset causing
/// ticks to line up imperfectly. Network jitter might then cause frequent variation in whether an
/// input is received just before or just after the simulation is stepped, and applying inputs
/// as soon as they arrive would keep the client from predicting the effects of its input.
///
/// So the queue waits a certain amount of time after receiving the first input, and only then
/// begins to hand out one input per tick: each input may then be late by that amount of time
/// without disrupting the client's prediction. Where the queue nonetheless runs dry, the client
/// likely fell behind, and the queue waits again to recover the margin for error.
pub struct InputQueue<T> {
    queue: VecDeque<T>,
    /// Time at which the first input in the latest uninterrupted sequence was received
    epoch: Option<Instant>,
}

impl<T> View for InputQueue<T> {
    type V = QueueState<T>;

    closed spec fn view(&self) -> QueueState<T> {
        (
            self.queue@,
            match self.epoch {
                Some(e) => Some(e@),
                None => None,
            },
        )
    }
}

impl<T> InputQueue<T> {
    /// A run is in progress whenever an input is queued.
    pub open spec fn wf(&self) -> bool {
        self@.0.len() > 0 ==> self@.1 is Some
    }

    pub fn new() -> (r: Self)
        ensures
            r@ == (Seq::<T>::empty(), None::<nat>),
            r.wf(),
    {
        InputQueue { queue: VecDeque::new(), epoch: None }
    }

    /// Enqueue a new input; called immediately on receipt.
    pub fn push(&mut self, max: usize, input: T, now: Instant)
        ensures
            final(self)@ == pushed(old(self)@, max as nat, input, now@),
            final(self).wf(),
    {
        if self.queue.len() == max {
            // Overrun
            self.queue.pop_front();
        }
        self.queue.push_back(input);
        if self.epoch.is_none() {
            self.epoch = Some(now);
        }
    }

    /// Obtain the input for the next simulation step.
    ///
    /// Must be called immediately prior to the step. Inputs may be pushed late by at most `delay`
    /// before an under-run occurs: `delay` is how long after the first input of an uninterrupted
    /// sequence the queue waits before it begins to hand out inputs.
    pub fn take(&mut self, now: Instant, delay: Duration) -> (r: Option<T>)
        requires
            old(self).wf(),
        ensures
            (r, final(self)@) == taken(old(self)@, now@, delay@),
            final(self).wf(),
    {
        let epoch = match self.epoch {
            Some(e) => e,
            None => {
                return None;
            },
        };
        if now.saturating_duration_since(epoch).as_nanos() < delay.as_nanos() {
            // The first input hasn't aged long enough; try again later!
            return None;
        }
        let result = self.queue.pop_front();
        if result.is_none() {
            // Queue under-run; the client may have fallen behind, so the margin for error has
            // to be re-established.
            self.epoch = None;
        }
        result
    }

    /// Number of inputs queued.
    pub fn len(&self) -> (r: usize)
        ensures
            r == self@.0.len(),
    {
        self.queue.len()
    }

    /// Whether any inputs are queued.
    pub fn is_empty(&self) -> (r: bool)
        ensures
            r == (self@.0.len() == 0),
    {
        self.queue.len() == 0
    }
}

impl<T> Default for InputQueue<T> {
    fn default() -> (r: Self)
        ensures
            r@ == (Seq::<T>::empty(), None::<nat>),
            r.wf(),
    {
        Self::new()
    }
}

} // verus!
