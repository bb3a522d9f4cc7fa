//! The repeat worker: it presses and releases one output key in turn, with a pause of
//! random length in between, until it is cancelled, and it never leaves the key down.

use rand::Rng;
use vstd::prelude::*;

verus! {

/// The shortest pause between two events of a worker, in milliseconds.
pub const DELAY: u64 = 50;

/// The width of the random part of a pause, in milliseconds: a pause is shorter than
/// `DELAY + DELTA`.
pub const DELTA: u64 = 25;

/// Draws a random number below `bound`.
///
/// Trusted: calls `rand::thread_rng` and `Rng::gen_range` with the range `0..bound`,
/// which samples from that range and panics if it is empty, so `bound` must not be 0.
/// (`thread_rng` itself panics only where the system cannot seed the generator.)
/// Nothing is claimed of the number but that it lies in the range.
#[verifier::external_body]
pub(crate) fn random_below(bound: u64) -> (n: u64)
    requires
        bound > 0,
    ensures
        n < bound,
{
    rand::thread_rng().gen_range(0..bound)
}

/// The length of a pause whose random part is `jitter`.
pub fn pause_millis(jitter: u64) -> (millis: u64)
    requires
        jitter < DELTA,
    ensures
        millis == DELAY + jitter,
        50 <= millis < 75,
{
    DELAY + jitter
}

/// The state of a repeat worker: the output key it drives, and whether the next event of
/// its cycle is a press (`down`) or a release.
#[derive(Copy, Clone, Debug, PartialEq, Eq, Structural)]
pub struct RepeatWorker {
    pub code: u16,
    pub down: bool,
}

/// What a worker is to do after it has emitted the event of its cycle and looked for the
/// cancellation signal.
#[derive(Copy, Clone, Debug, PartialEq, Eq, Structural)]
pub enum WorkerStep {
    /// Sleep for `millis` milliseconds, then emit the next event of the cycle.
    Pause { millis: u64 },
    /// Emit a last release of `code`, then end.
    Release { code: u16 },
    /// End: the key is up.
    Stop,
}

/// The value of a key event: 1 for a press, 0 for a release.
pub open spec fn key_value(down: bool) -> i32 {
    if down {
        1
    } else {
        0
    }
}

/// The worker after one turn of its cycle, and what it is to do. A cancelled worker ends,
/// with a last release if the event it has just emitted was a press. Any other worker
/// flips between press and release and pauses.
pub open spec fn turn(worker: RepeatWorker, cancelled: bool, jitter: u64) -> (
    RepeatWorker,
    WorkerStep,
) {
    if cancelled {
        (
            RepeatWorker { code: worker.code, down: false },
            if worker.down {
                WorkerStep::Release { code: worker.code }
            } else {
                WorkerStep::Stop
            },
        )
    } else {
        (
            RepeatWorker { code: worker.code, down: !worker.down },
            WorkerStep::Pause { millis: (DELAY + jitter) as u64 },
        )
    }
}

impl RepeatWorker {
    /// A worker for the output key `code`. Its first event is a press.
    pub fn new(code: u16) -> (worker: RepeatWorker)
        ensures
            worker == (RepeatWorker { code, down: true }),
    {
        RepeatWorker { code, down: true }
    }

    /// The event that the worker is to emit now: its key, with 1 for a press or 0 for a
    /// release.
    pub fn event(&self) -> (event: (u16, i32))
        ensures
            event == (self.code, key_value(self.down)),
    {
        (
            self.code,
            if self.down {
                1
            } else {
                0
            },
        )
    }

    /// Takes the worker one turn on, after it has emitted [`RepeatWorker::event`] and
    /// looked for the cancellation signal, with `jitter` as the random part of the pause.
    pub fn advance_with(&mut self, cancelled: bool, jitter: u64) -> (step: WorkerStep)
        requires
            jitter < DELTA,
        ensures
            (*final(self), step) == turn(*old(self), cancelled, jitter),
    {
        if cancelled {
            let was_down = self.down;
            self.down = false;
            if was_down {
                WorkerStep::Release { code: self.code }
            } else {
                WorkerStep::Stop
            }
        } else {
            self.down = !self.down;
            WorkerStep::Pause { millis: pause_millis(jitter) }
        }
    }

    /// Takes the worker one turn on, after it has emitted [`RepeatWorker::event`] and
    /// looked for the cancellation signal. The random part of a pause is drawn here.
    pub fn advance(&mut self, cancelled: bool) -> (step: WorkerStep)
        ensures
            exists|jitter: u64|
                jitter < DELTA && (*final(self), step) == #[trigger] turn(
                    *old(self),
                    cancelled,
                    jitter,
                ),
            cancelled ==> (*final(self), step) == turn(*old(self), true, 0),
            step matches WorkerStep::Pause { millis } ==> 50 <= millis < 75,
    {
        if cancelled {
            let step = self.advance_with(true, 0);
            assert((*self, step) == turn(*old(self), cancelled, 0));
            step
        } else {
            let jitter = random_below(DELTA);
            self.advance_with(false, jitter)
        }
    }
}

/// One thing a worker puts out: a key event for the virtual device, or a pause.
#[derive(Copy, Clone, Debug, PartialEq, Eq, Structural)]
pub enum Output {
    Event { code: u16, value: i32 },
    Pause { millis: u64 },
}

/// All that a worker puts out from the state `worker` on, turn by turn: `polls[i]` tells
/// whether the cancellation signal was there in turn `i`, and `jitters[i]` is the random
/// part of the pause of that turn. The worker ends in the first turn that finds the
/// signal.
pub open spec fn run(worker: RepeatWorker, polls: Seq<bool>, jitters: Seq<u64>) -> Seq<Output>
    decreases polls.len(),
{
    if polls.len() == 0 {
        Seq::empty()
    } else {
        let event = Output::Event { code: worker.code, value: key_value(worker.down) };
        let (next, step) = turn(worker, polls[0], jitters[0]);
        match step {
            WorkerStep::Pause { millis } => seq![event, Output::Pause { millis }] + run(
                next,
                polls.skip(1),
                jitters.skip(1),
            ),
            WorkerStep::Release { code } => seq![event, Output::Event { code, value: 0 }],
            WorkerStep::Stop => seq![event],
        }
    }
}

/// Whether the event of turn `turns` is a press, for a worker whose event of turn 0 is a
/// press if `down` holds: press and release take turns.
pub open spec fn toggled(down: bool, turns: int) -> bool {
    if turns % 2 == 0 {
        down
    } else {
        !down
    }
}

/// Whether the signal is found in turn `k` and in no turn before it.
pub open spec fn cancelled_in(polls: Seq<bool>, k: int) -> bool {
    &&& 0 <= k < polls.len()
    &&& polls[k]
    &&& forall|i: int| 0 <= i < k ==> !#[trigger] polls[i]
}

/// What a worker that has not found the signal puts out in place `j`, counted from 0:
/// the event of turn `j / 2` in an even place, press and release taking turns, and
/// the pause of that turn in the odd place behind it.
pub open spec fn cycle_output(worker: RepeatWorker, jitters: Seq<u64>, j: int) -> Output {
    if j % 2 == 0 {
        Output::Event { code: worker.code, value: key_value(toggled(worker.down, j / 2)) }
    } else {
        Output::Pause { millis: (DELAY + jitters[j / 2]) as u64 }
    }
}

/// The shape of a cancelled worker's output. If the signal is first found in turn `k`,
/// the worker goes through its cycle up to the event of turn `k`. After that event it
/// puts out a release if the event was a press, and nothing if it was a release.
/// There it ends.
pub proof fn lemma_run_shape(worker: RepeatWorker, polls: Seq<bool>, jitters: Seq<u64>, k: int)
    requires
        cancelled_in(polls, k),
        jitters.len() == polls.len(),
    ensures
        run(worker, polls, jitters).len() == 2 * k + (if toggled(worker.down, k) {
            2int
        } else {
            1int
        }),
        forall|j: int|
            0 <= j <= 2 * k ==> #[trigger] run(worker, polls, jitters)[j] == cycle_output(
                worker,
                jitters,
                j,
            ),
        toggled(worker.down, k) ==> run(worker, polls, jitters)[2 * k + 1] == (Output::Event {
            code: worker.code,
            value: 0,
        }),
    decreases k,
{
    let out = run(worker, polls, jitters);
    if k > 0 {
        let next = turn(worker, false, jitters[0]).0;
        let rest = run(next, polls.skip(1), jitters.skip(1));
        assert(cancelled_in(polls.skip(1), k - 1)) by {
            assert forall|i: int| 0 <= i < k - 1 implies !#[trigger] polls.skip(1)[i] by {
                assert(!polls[i + 1]);
            }
        }
        lemma_run_shape(next, polls.skip(1), jitters.skip(1), k - 1);
        assert(!polls[0]);
        let head = seq![
            Output::Event { code: worker.code, value: key_value(worker.down) },
            Output::Pause { millis: (DELAY + jitters[0]) as u64 },
        ];
        assert(out == head + rest);
        assert(toggled(next.down, k - 1) == toggled(worker.down, k));
        assert forall|j: int| 0 <= j <= 2 * k implies #[trigger] out[j] == cycle_output(
            worker,
            jitters,
            j,
        ) by {
            if j >= 2 {
                assert(out[j] == rest[j - 2]);
                assert(rest[j - 2] == cycle_output(next, jitters.skip(1), j - 2));
                assert(toggled(next.down, (j - 2) / 2) == toggled(worker.down, j / 2));
                assert(jitters.skip(1)[(j - 2) / 2] == jitters[j / 2]);
            }
        }
        if toggled(worker.down, k) {
            assert(out[2 * k + 1] == rest[2 * (k - 1) + 1]);
        }
    }
}

/// No key is left down. The last thing a cancelled worker puts out is a release of its
/// key, in whatever turn of its cycle the signal is found, and from the turn that
/// finds the signal on it puts out no pause and at most two events.
pub proof fn lemma_cancelled_worker_ends_released(
    worker: RepeatWorker,
    polls: Seq<bool>,
    jitters: Seq<u64>,
    k: int,
)
    requires
        cancelled_in(polls, k),
        jitters.len() == polls.len(),
    ensures
        run(worker, polls, jitters).len() > 0,
        run(worker, polls, jitters).last() == (Output::Event { code: worker.code, value: 0 }),
        2 * k < run(worker, polls, jitters).len() <= 2 * k + 2,
        forall|i: int|
            2 * k <= i < run(worker, polls, jitters).len() ==> #[trigger] run(
                worker,
                polls,
                jitters,
            )[i] is Event,
{
    lemma_run_shape(worker, polls, jitters, k);
    let out = run(worker, polls, jitters);
    assert(out[2 * k] == cycle_output(worker, jitters, 2 * k));
    if toggled(worker.down, k) {
        assert(out.last() == out[2 * k + 1]);
    } else {
        assert(out.last() == out[2 * k]);
    }
}

/// The cycle of a worker that is not cancelled. As long as no turn finds the signal, the
/// worker puts out the event of each turn and the pause behind it, and goes on to the
/// event of the next turn.
pub proof fn lemma_cycle_goes_on(worker: RepeatWorker, polls: Seq<bool>, jitters: Seq<u64>, n: int)
    requires
        0 <= n <= polls.len(),
        forall|i: int| 0 <= i < n ==> !#[trigger] polls[i],
        jitters.len() == polls.len(),
    ensures
        run(worker, polls, jitters).len() >= 2 * n,
        n < polls.len() ==> run(worker, polls, jitters).len() > 2 * n,
        forall|j: int|
            0 <= j < run(worker, polls, jitters).len() && j <= 2 * n ==> #[trigger] run(
                worker,
                polls,
                jitters,
            )[j] == cycle_output(worker, jitters, j),
    decreases n,
{
    let out = run(worker, polls, jitters);
    if n > 0 {
        let next = turn(worker, false, jitters[0]).0;
        let rest = run(next, polls.skip(1), jitters.skip(1));
        assert forall|i: int| 0 <= i < n - 1 implies !#[trigger] polls.skip(1)[i] by {
            assert(!polls[i + 1]);
        }
        lemma_cycle_goes_on(next, polls.skip(1), jitters.skip(1), n - 1);
        assert(!polls[0]);
        let head = seq![
            Output::Event { code: worker.code, value: key_value(worker.down) },
            Output::Pause { millis: (DELAY + jitters[0]) as u64 },
        ];
        assert(out == head + rest);
        assert forall|j: int| 0 <= j < out.len() && j <= 2 * n implies #[trigger] out[j]
            == cycle_output(worker, jitters, j) by {
            if j >= 2 {
                assert(out[j] == rest[j - 2]);
                assert(rest[j - 2] == cycle_output(next, jitters.skip(1), j - 2));
                assert(toggled(next.down, (j - 2) / 2) == toggled(worker.down, j / 2));
                if j % 2 == 1 {
                    assert(jitters.skip(1)[(j - 2) / 2] == jitters[j / 2]);
                }
            }
        }
    }
}

/// The events of a worker's cycle are spaced by its pauses. Where turn `i` and the turns
/// before it do not find the signal, there is exactly one pause between the event of
/// turn `i` and the event of the turn after it, of at least 50 and less than 75
/// milliseconds, and one of the two events is a press and the other a release of the
/// worker's key.
pub proof fn lemma_events_are_spaced(
    worker: RepeatWorker,
    polls: Seq<bool>,
    jitters: Seq<u64>,
    i: int,
)
    requires
        0 <= i,
        i + 1 < polls.len(),
        forall|j: int| 0 <= j <= i ==> !#[trigger] polls[j],
        jitters.len() == polls.len(),
        forall|j: int| 0 <= j < jitters.len() ==> #[trigger] jitters[j] < DELTA,
    ensures
        run(worker, polls, jitters).len() > 2 * i + 2,
        run(worker, polls, jitters)[2 * i] == (Output::Event {
            code: worker.code,
            value: key_value(toggled(worker.down, i)),
        }),
        run(worker, polls, jitters)[2 * i + 1] matches Output::Pause { millis } && 50 <= millis < 75,
        run(worker, polls, jitters)[2 * i + 2] == (Output::Event {
            code: worker.code,
            value: key_value(!toggled(worker.down, i)),
        }),
{
    lemma_cycle_goes_on(worker, polls, jitters, i + 1);
    let out = run(worker, polls, jitters);
    assert(out[2 * i] == cycle_output(worker, jitters, 2 * i));
    assert(out[2 * i + 1] == cycle_output(worker, jitters, 2 * i + 1));
    assert(out[2 * i + 2] == cycle_output(worker, jitters, 2 * i + 2));
    assert(jitters[i] < DELTA);
    assert(toggled(worker.down, i + 1) == !toggled(worker.down, i));
}

} // verus!
