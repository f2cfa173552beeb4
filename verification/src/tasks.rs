//! Decisions of the task system: which dispatcher runs a task, when a
//! cancellable task stops, and each step of the frame tick loop. The runtime,
//! the dispatchers and the channels are driven by the application, which
//! performs the actions these functions choose.
use vstd::prelude::*;
use std::sync::atomic::AtomicBool;
use std::sync::Arc;

verus! {

/// The hint for the task system to run a task on the thread pool bound to the
/// performance or the efficiency cores.
#[derive(PartialEq, Eq, Structural, Clone, Copy)]
pub enum AffinityHint {
    Performance,
    Efficiency,
}

/// The id of a cancellable task.
#[derive(PartialEq, Eq, Structural, Clone, Copy)]
pub struct CalcellationId(pub u64);

/// The shared flags of a cancellable task: whether it allows cancellation and
/// whether it was cancelled. Clones share the flags.
#[derive(Clone)]
pub struct CancellableTicket(Arc<(AtomicBool, AtomicBool)>);

impl CancellableTicket {
    /// A ticket that neither allows nor requests cancellation. The flags are
    /// atomics shared by the clones, whose values are not tracked, so nothing
    /// is stated of them.
    pub fn new() -> (r: CancellableTicket) {
        CancellableTicket(Arc::new((AtomicBool::new(false), AtomicBool::new(false))))
    }

    pub fn set_allow_cancel(&self, allow: bool) {
        self.0.0.store(allow, std::sync::atomic::Ordering::Relaxed);
    }

    /// Whether the task allows cancellation. Other clones may change the flag
    /// at any time, so nothing is stated of the value read.
    pub fn allow_cancel(&self) -> bool {
        self.0.0.load(std::sync::atomic::Ordering::Relaxed)
    }

    pub fn cancel(&self) {
        self.0.1.store(true, std::sync::atomic::Ordering::Relaxed);
    }

    /// Whether cancellation was requested. Other clones may change the flag
    /// at any time, so nothing is stated of the value read.
    pub fn is_canceled(&self) -> bool {
        self.0.1.load(std::sync::atomic::Ordering::Relaxed)
    }

    /// Whether a wrapped task stops at its next poll: it allows cancellation
    /// and cancellation was requested, as `stop_requested` decides it.
    /// Other clones may change either flag between the reads, so nothing is
    /// stated of the value.
    pub fn should_stop(&self) -> bool {
        let allow = self.allow_cancel();
        let canceled = self.is_canceled();
        stop_requested(allow, canceled)
    }
}

/// A cancellable task stops at its next poll exactly when it allows
/// cancellation and cancellation was requested.
pub fn stop_requested(allow_cancel: bool, canceled: bool) -> (r: bool)
    ensures
        r == (allow_cancel && canceled),
{
    allow_cancel && canceled
}

/// Whether a task goes to the performance dispatcher: without a hint,
/// without an efficiency dispatcher, or with the performance hint.
pub open spec fn uses_performance(hint: Option<AffinityHint>, has_efficiency: bool) -> bool {
    hint is None || !has_efficiency || hint == Some(AffinityHint::Performance)
}

/// The dispatcher a task is sent to: `true` for the performance dispatcher.
pub fn choose_performance_dispatcher(hint: Option<AffinityHint>, has_efficiency: bool) -> (r: bool)
    ensures
        r == uses_performance(hint, has_efficiency),
        hint is None ==> r,
        !has_efficiency ==> r,
        hint == Some(AffinityHint::Performance) ==> r,
        (hint == Some(AffinityHint::Efficiency) && has_efficiency) ==> !r,
{
    match hint {
        None => true,
        Some(h) => !has_efficiency || h == AffinityHint::Performance,
    }
}

/// A task without a hint, and any task on a machine without an efficiency
/// dispatcher, goes to the performance dispatcher; a task with the
/// performance hint does too; only a task with the efficiency hint, where an
/// efficiency dispatcher exists, goes to the efficiency dispatcher.
pub proof fn law_dispatch_defaults_to_performance(hint: Option<AffinityHint>, has_efficiency: bool)
    ensures
        hint is None ==> uses_performance(hint, has_efficiency),
        !has_efficiency ==> uses_performance(hint, has_efficiency),
        hint == Some(AffinityHint::Performance) ==> uses_performance(hint, has_efficiency),
        uses_performance(hint, has_efficiency) <==> !(hint == Some(AffinityHint::Efficiency)
            && has_efficiency),
{
    match hint {
        Some(AffinityHint::Performance) => {},
        Some(AffinityHint::Efficiency) => {},
        None => {},
    }
}

/// The id the counter hands out next, and the counter after it (it wraps).
pub fn next_calcellation_id(counter: u64) -> (r: (CalcellationId, u64))
    ensures
        r.0.0 == counter,
        r.1 == (if counter == u64::MAX { 0 } else { counter + 1 }),
{
    let next = if counter == u64::MAX { 0 } else { counter + 1 };
    (CalcellationId(counter), next)
}

/// What a frame tick does, after trying to take a finished tick's result
/// from the queue of allowed frames.
#[derive(PartialEq, Eq, Structural, Clone, Copy)]
pub enum TickMode {
    /// The last tick asked to go on: queue the next tick and run the runtime
    /// until the frame timer fires.
    Queue,
    /// The last tick asked to stop: run the runtime until the queue is empty.
    Drain,
    /// No frame is free: run the runtime until one is.
    Blocked,
}

/// The mode of a tick from the result taken from the queue (`None` when the
/// queue was empty).
pub fn tick_mode(received: Option<bool>) -> (m: TickMode)
    ensures
        m == (match received {
            Some(true) => TickMode::Queue,
            Some(false) => TickMode::Drain,
            None => TickMode::Blocked,
        }),
{
    match received {
        Some(true) => TickMode::Queue,
        Some(false) => TickMode::Drain,
        None => TickMode::Blocked,
    }
}

/// What `tick` returns for a mode: `false` only once the game loop asked to
/// stop.
pub fn tick_result(mode: TickMode) -> (r: bool)
    ensures
        r == (mode != TickMode::Drain),
{
    match mode {
        TickMode::Drain => false,
        _ => true,
    }
}

/// The state of the frame timer's channel.
#[derive(PartialEq, Eq, Structural, Clone, Copy)]
pub enum TimerSignal {
    Fired,
    Pending,
    /// The timer's sender is gone without firing.
    Dropped,
}

/// The next step of a loop that runs the runtime.
#[derive(PartialEq, Eq, Structural, Clone, Copy)]
pub enum LoopStep {
    /// Leave the loop.
    Exit,
    /// Poll for events without waiting.
    PollNow,
    /// Poll for events, waiting as long as the runtime needs.
    PollWait,
    /// Poll for events, waiting at most the runtime's current timeout.
    PollUntilTimeout,
}

/// One step of the queue loop, after a run of the runtime (`remaining`:
/// tasks are left) and a look at the frame timer: leave when the timer fired
/// or is gone with no task left; otherwise poll, without waiting while tasks
/// remain.
pub fn queue_step(remaining: bool, timer: TimerSignal) -> (s: LoopStep)
    ensures
        s == (if timer == TimerSignal::Fired || (timer == TimerSignal::Dropped && !remaining) {
            LoopStep::Exit
        } else if remaining {
            LoopStep::PollNow
        } else {
            LoopStep::PollWait
        }),
{
    if timer == TimerSignal::Fired {
        LoopStep::Exit
    } else if timer == TimerSignal::Dropped && !remaining {
        LoopStep::Exit
    } else if remaining {
        LoopStep::PollNow
    } else {
        LoopStep::PollWait
    }
}

/// How long a poll may wait: not at all while tasks remain or where the
/// runtime has no timeout, otherwise the runtime's timeout.
pub fn poll_wait(remaining: bool, has_timeout: bool) -> (s: LoopStep)
    ensures
        s == (if remaining || !has_timeout { LoopStep::PollNow } else { LoopStep::PollUntilTimeout }),
{
    if remaining || !has_timeout {
        LoopStep::PollNow
    } else {
        LoopStep::PollUntilTimeout
    }
}

/// One step of the drain loop, after a run of the runtime and an attempt to
/// take one more result from the queue: leave once the queue is empty.
pub fn drain_step(remaining: bool, took_result: bool, has_timeout: bool) -> (s: LoopStep)
    ensures
        s == (if !took_result { LoopStep::Exit } else if remaining || !has_timeout {
            LoopStep::PollNow
        } else {
            LoopStep::PollUntilTimeout
        }),
{
    if !took_result {
        LoopStep::Exit
    } else {
        poll_wait(remaining, has_timeout)
    }
}

/// One step of the blocked loop: leave as soon as the queue holds a result
/// (looked at before running the runtime); otherwise poll.
pub fn blocked_step(queue_len: usize, remaining: bool, has_timeout: bool) -> (s: LoopStep)
    ensures
        s == (if queue_len != 0 { LoopStep::Exit } else if remaining || !has_timeout {
            LoopStep::PollNow
        } else {
            LoopStep::PollUntilTimeout
        }),
{
    if queue_len != 0 {
        LoopStep::Exit
    } else {
        poll_wait(remaining, has_timeout)
    }
}

/// The state of the game tick that the task system's tests run: the ticks
/// taken so far and the tick on which the loop ends.
pub struct MimicTickState {
    pub counter: i32,
    pub tick_to: i32,
}

pub open spec fn wrapping_next(x: i32) -> i32 {
    if x == i32::MAX { i32::MIN } else { (x + 1) as i32 }
}

impl MimicTickState {
    /// No tick taken; the loop ends on tick 200.
    pub fn new() -> (r: MimicTickState)
        ensures
            r.counter == 0,
            r.tick_to == 200,
    {
        MimicTickState { counter: 0, tick_to: 200 }
    }
}

/// Sets the tick on which the loop ends.
pub fn set_counter(state: &mut MimicTickState, counter: i32)
    ensures
        final(state).tick_to == counter,
        final(state).counter == old(state).counter,
{
    state.tick_to = counter;
}

/// One tick: counts it (wrapping, as an atomic add does) and tells whether
/// the loop goes on, which it does unless this was the last tick.
pub fn mimic_tick_step(state: &mut MimicTickState) -> (keep: bool)
    ensures
        keep == (old(state).counter != old(state).tick_to),
        final(state).counter == wrapping_next(old(state).counter),
        final(state).tick_to == old(state).tick_to,
{
    let counter = state.counter;
    state.counter = if counter == i32::MAX { i32::MIN } else { counter + 1 };
    counter != state.tick_to
}

/// Whether CPU `i` is in the set given as a bitmap.
pub open spec fn cpu_in(set: Seq<bool>, i: int) -> bool {
    0 <= i < set.len() && set[i]
}

/// Whether CPU `i` belongs to one of the kinds from position `from` on.
pub open spec fn cpu_in_kinds_from(kinds: Seq<Vec<bool>>, from: int, i: int) -> bool {
    exists|k: int| from <= k < kinds.len() && cpu_in(#[trigger] kinds[k]@, i)
}

/// Splits the CPU kinds (bitmaps, the most power-efficient kind first) into
/// that first kind and, where there are more kinds, the union of the rest.
pub fn split_to_two_kinds(kinds: &Vec<Vec<bool>>) -> (r: (Vec<bool>, Option<Vec<bool>>))
    requires
        kinds@.len() >= 1,
    ensures
        r.0@ == kinds@[0]@,
        kinds@.len() == 1 <==> r.1 is None,
        r.1 matches Some(rest) ==> forall|i: int| cpu_in(rest@, i) <==> cpu_in_kinds_from(kinds@, 1, i),
{
    let first = kinds[0].clone();
    if kinds.len() == 1 {
        return (first, None);
    }
    let mut acc: Vec<bool> = Vec::new();
    let mut k: usize = 1;
    while k < kinds.len()
        invariant
            1 <= k <= kinds@.len(),
            forall|i: int| cpu_in(acc@, i) <==> (exists|j: int| 1 <= j < k && cpu_in(#[trigger] kinds@[j]@, i)),
        decreases kinds.len() - k,
    {
        let set = &kinds[k];
        let ghost before = acc@;
        let mut i: usize = 0;
        while i < set.len()
            invariant
                i <= set@.len(),
                set == &kinds@[k as int],
                acc@.len() >= before.len(),
                forall|x: int| 0 <= x < before.len() ==> (#[trigger] acc@[x]) == (before[x] || (x < i && set@[x])),
                forall|x: int| before.len() <= x < acc@.len() ==> (#[trigger] acc@[x]) == (x < i && set@[x]),
                acc@.len() == (if before.len() >= i { before.len() } else { i as nat }),
            decreases set.len() - i,
        {
            if i < acc.len() {
                let v = acc[i] || set[i];
                acc.set(i, v);
            } else {
                acc.push(set[i]);
            }
            i = i + 1;
        }
        proof {
            assert forall|x: int| cpu_in(acc@, x) <==> (exists|j: int| 1 <= j < k + 1 && cpu_in(#[trigger] kinds@[j]@, x)) by {
                if cpu_in(acc@, x) {
                    if cpu_in(before, x) {
                        let j = choose|j: int| 1 <= j < k && cpu_in(#[trigger] kinds@[j]@, x);
                        assert(1 <= j < k + 1 && cpu_in(kinds@[j]@, x));
                    } else {
                        assert(cpu_in(kinds@[k as int]@, x));
                    }
                }
                if exists|j: int| 1 <= j < k + 1 && cpu_in(#[trigger] kinds@[j]@, x) {
                    let j = choose|j: int| 1 <= j < k + 1 && cpu_in(#[trigger] kinds@[j]@, x);
                    if j < k {
                        assert(cpu_in(before, x));
                    }
                }
            }
        }
        k = k + 1;
    }
    (first, Some(acc))
}

/// How the task system's dispatchers are set up.
pub struct DispatcherPlan {
    /// The worker threads of the performance dispatcher.
    pub performance_threads: usize,
    /// The CPUs the performance workers are bound to, where they are bound.
    pub performance_cpus: Option<Vec<bool>>,
    /// The worker threads and CPUs of the efficiency dispatcher, where there
    /// is one.
    pub efficiency: Option<(usize, Vec<bool>)>,
}

/// The dispatchers for `thread_count` (performance, and efficiency if given)
/// and the CPU kinds split in two (where the topology allows binding): with
/// two groups, the performance workers are bound to the rest of the kinds and
/// an efficiency dispatcher, with its own count or the performance count,
/// is bound to the most efficient kind; otherwise one unbound performance
/// dispatcher.
pub fn plan_dispatchers(thread_count: (usize, Option<usize>), kinds: Option<(Vec<bool>, Option<Vec<bool>>)>) -> (r:
    DispatcherPlan)
    requires
        thread_count.0 > 0,
        kinds matches Some((_, Some(_))) ==> thread_count.1 != Some(0usize),
    ensures
        r.performance_threads == thread_count.0,
        match kinds {
            Some((first, Some(rest))) => {
                &&& r.performance_cpus matches Some(p) && p@ == rest@
                &&& r.efficiency matches Some((n, e)) && e@ == first@ && n == (match thread_count.1 {
                    Some(x) => x,
                    None => thread_count.0,
                })
            },
            _ => r.performance_cpus is None && r.efficiency is None,
        },
        r.efficiency matches Some((n, _)) ==> n > 0,
{
    match kinds {
        Some((first, Some(rest))) => {
            let n = match thread_count.1 {
                Some(x) => x,
                None => thread_count.0,
            };
            DispatcherPlan {
                performance_threads: thread_count.0,
                performance_cpus: Some(rest),
                efficiency: Some((n, first)),
            }
        },
        _ => DispatcherPlan { performance_threads: thread_count.0, performance_cpus: None, efficiency: None },
    }
}

/// The frames the task system allows in flight by default.
pub const DEFAULT_FRAME_DELAY: usize = 3;

/// The frame timer of the task system by default, in milliseconds (60 frames
/// a second).
pub const DEFAULT_TICK_TIMEOUT_MS: u64 = 1000 / 60;

/// The queue a task system starts with: `frame_delay` frames allowed, each
/// asking to go on.
pub open spec fn initial_frames(frame_delay: nat) -> Seq<bool> {
    Seq::new(frame_delay, |i: int| true)
}

/// The results of the frames in flight, oldest first: whether the game loop
/// goes on.
pub struct FrameQueue {
    results: Vec<bool>,
}

impl View for FrameQueue {
    type V = Seq<bool>;

    closed spec fn view(&self) -> Seq<bool> {
        self.results@
    }
}

impl FrameQueue {
    /// A queue that allows `frame_delay` frames in flight.
    pub fn new(frame_delay: usize) -> (q: FrameQueue)
        ensures
            q@ == initial_frames(frame_delay as nat),
    {
        let mut results: Vec<bool> = Vec::new();
        let mut i: usize = 0;
        while i < frame_delay
            invariant
                i <= frame_delay,
                results@ == initial_frames(i as nat),
            decreases frame_delay - i,
        {
            results.push(true);
            i = i + 1;
            assert(results@ =~= initial_frames(i as nat));
        }
        FrameQueue { results }
    }

    /// Queues the result of a finished frame.
    pub fn send(&mut self, result: bool)
        ensures
            final(self)@ == old(self)@.push(result),
    {
        self.results.push(result);
    }

    /// Takes the oldest result; `None` where the queue is empty.
    pub fn try_recv(&mut self) -> (r: Option<bool>)
        ensures
            old(self)@.len() == 0 ==> r is None && final(self)@ == old(self)@,
            old(self)@.len() > 0 ==> r == Some(old(self)@[0]) && final(self)@ == old(self)@.drop_first(),
    {
        if self.results.len() == 0 {
            None
        } else {
            let r = self.results.remove(0);
            assert(self.results@ =~= old(self)@.drop_first());
            Some(r)
        }
    }

    pub fn len(&self) -> (r: usize)
        ensures
            r == self@.len(),
    {
        self.results.len()
    }
}

/// The tick results lag by the frame delay: out of a queue started with
/// `frame_delay` frames and then fed the results `sent`, the first
/// `frame_delay` results taken ask to go on and the one after them is the
/// `i`-th result sent.
pub proof fn law_results_lag_the_frame_delay(frame_delay: nat, sent: Seq<bool>, i: int)
    ensures
        0 <= i < frame_delay ==> (initial_frames(frame_delay) + sent)[i],
        0 <= i < sent.len() ==> (initial_frames(frame_delay) + sent)[frame_delay + i] == sent[i],
{
}

} // verus!
