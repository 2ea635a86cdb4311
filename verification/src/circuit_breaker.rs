//! The circuit breaker of a tunnel.
//!
//! The breaker gates every frame on its way to the agent. While the agent is
//! away it queues frames for a short time, and hands them out again when a
//! control channel is back. Time is a number of milliseconds on a clock that
//! never runs backwards; the caller reads the clock and hands the time in.

use std::collections::VecDeque;
use vstd::prelude::*;

verus! {

/// The states of a breaker.
#[derive(Debug, Clone, Copy, PartialEq, Eq, Structural)]
pub enum CircuitState {
    /// Frames pass.
    Closed,
    /// The agent is taken to be away: frames are queued.
    Open,
    /// One frame was let through to see whether the agent is back.
    HalfOpen,
}

/// The limits of a breaker. Times are in milliseconds.
#[derive(Debug, Clone, Copy)]
pub struct CircuitBreakerConfig {
    /// How many frames the queue holds at most.
    pub max_queue_size: usize,
    /// How long the breaker stays open before it lets a probe through.
    pub open_timeout: u64,
    /// The largest age at which a queued frame is still handed out.
    pub max_request_age: u64,
    /// How many failures in a row open the breaker.
    pub failure_threshold: u32,
}

impl Default for CircuitBreakerConfig {
    fn default() -> (c: CircuitBreakerConfig)
        ensures
            c.max_queue_size == 50,
            c.open_timeout == 30_000,
            c.max_request_age == 60_000,
            c.failure_threshold == 3,
    {
        CircuitBreakerConfig {
            max_queue_size: 50,
            open_timeout: 30_000,
            max_request_age: 60_000,
            failure_threshold: 3,
        }
    }
}

/// A frame that waits in the queue, and when it was put there.
#[derive(Debug)]
pub struct QueuedRequest {
    pub data: Vec<u8>,
    pub queued_at: u64,
}

/// What a queued frame holds.
pub struct QueuedFrame {
    pub data: Seq<u8>,
    pub queued_at: u64,
}

impl View for QueuedRequest {
    type V = QueuedFrame;

    open spec fn view(&self) -> QueuedFrame {
        QueuedFrame { data: self.data@, queued_at: self.queued_at }
    }
}

/// What `try_send` decides for a frame.
#[derive(Debug)]
pub enum Dispatch {
    /// The caller may transmit the frame, which is handed back.
    Pass(Vec<u8>),
    /// The breaker is open and has queued the frame.
    Queued,
    /// The breaker is open and its queue is full: the frame is gone.
    Dropped,
}

/// The decision alone.
pub enum Verdict {
    Pass,
    Queued,
    Dropped,
}

/// The time from `since` to `now`, nothing if `since` is the later one.
pub open spec fn elapsed(now: u64, since: u64) -> u64 {
    if now >= since {
        (now - since) as u64
    } else {
        0
    }
}

/// The frames of a queue that are no older than `max_age` at `now`, in the
/// order of the queue.
pub open spec fn fresh_frames(q: Seq<QueuedFrame>, now: u64, max_age: u64) -> Seq<Seq<u8>>
    decreases q.len(),
{
    if q.len() == 0 {
        Seq::empty()
    } else if elapsed(now, q[0].queued_at) <= max_age {
        seq![q[0].data] + fresh_frames(q.skip(1), now, max_age)
    } else {
        fresh_frames(q.skip(1), now, max_age)
    }
}

/// The state of a breaker as a value.
pub struct BreakerState {
    pub state: CircuitState,
    /// Failures in a row, counted up to the largest `u64`.
    pub failures: u64,
    /// When the state last changed.
    pub last_change: u64,
    pub queue: Seq<QueuedFrame>,
    pub config: CircuitBreakerConfig,
}

impl BreakerState {
    /// A breaker as it is made: closed, nothing queued, no failure counted.
    pub open spec fn fresh(config: CircuitBreakerConfig, now: u64) -> BreakerState {
        BreakerState {
            state: CircuitState::Closed,
            failures: 0,
            last_change: now,
            queue: Seq::empty(),
            config,
        }
    }

    /// The queue holds no more than it may.
    pub open spec fn bounded(self) -> bool {
        self.queue.len() <= self.config.max_queue_size
    }

    /// After a success: no failure counted, and a half-open breaker closed.
    pub open spec fn after_success(self, now: u64) -> BreakerState {
        if self.state == CircuitState::HalfOpen {
            BreakerState { state: CircuitState::Closed, failures: 0, last_change: now, ..self }
        } else {
            BreakerState { failures: 0, ..self }
        }
    }

    /// Failures in a row after one more.
    pub open spec fn failures_after_one_more(self) -> u64 {
        if self.failures < u64::MAX {
            (self.failures + 1) as u64
        } else {
            self.failures
        }
    }

    /// After a failure: one more counted, and the breaker open if the count
    /// has reached the threshold.
    pub open spec fn after_failure(self, now: u64) -> BreakerState {
        let failures = self.failures_after_one_more();
        if failures >= self.config.failure_threshold && self.state != CircuitState::Open {
            BreakerState { state: CircuitState::Open, failures, last_change: now, ..self }
        } else {
            BreakerState { failures, ..self }
        }
    }

    /// An open breaker whose time to probe has come.
    pub open spec fn probe_due(self, now: u64) -> bool {
        self.state == CircuitState::Open && elapsed(now, self.last_change)
            >= self.config.open_timeout
    }

    /// What the breaker decides for a frame at `now`.
    pub open spec fn verdict(self, now: u64) -> Verdict {
        if self.state != CircuitState::Open || self.probe_due(now) {
            Verdict::Pass
        } else if self.queue.len() < self.config.max_queue_size {
            Verdict::Queued
        } else {
            Verdict::Dropped
        }
    }

    /// The breaker after it has decided for a frame at `now`.
    pub open spec fn after_send(self, data: Seq<u8>, now: u64) -> BreakerState {
        if self.probe_due(now) {
            BreakerState { state: CircuitState::HalfOpen, last_change: now, ..self }
        } else {
            match self.verdict(now) {
                Verdict::Queued => BreakerState {
                    queue: self.queue.push(QueuedFrame { data, queued_at: now }),
                    ..self
                },
                _ => self,
            }
        }
    }

    /// The frames that a drain at `now` hands out.
    pub open spec fn drained(self, now: u64) -> Seq<Seq<u8>> {
        fresh_frames(self.queue, now, self.config.max_request_age)
    }

    /// After a drain: closed, nothing queued, no failure counted.
    pub open spec fn after_drain(self, now: u64) -> BreakerState {
        BreakerState {
            state: CircuitState::Closed,
            failures: 0,
            last_change: now,
            queue: Seq::empty(),
            ..self
        }
    }

    /// After one failure at each of `times`.
    pub open spec fn after_failures(self, times: Seq<u64>) -> BreakerState
        decreases times.len(),
    {
        if times.len() == 0 {
            self
        } else {
            self.after_failures(times.drop_last()).after_failure(times.last())
        }
    }
}

/// The views of the frames of a queue.
pub open spec fn queue_view(q: Seq<QueuedRequest>) -> Seq<QueuedFrame> {
    Seq::new(q.len(), |i: int| q[i]@)
}

/// The views of a list of frames.
pub open spec fn frame_views(v: Seq<Vec<u8>>) -> Seq<Seq<u8>> {
    Seq::new(v.len(), |i: int| v[i]@)
}

/// The circuit breaker of one tunnel.
pub struct CircuitBreaker {
    state: CircuitState,
    queue: VecDeque<QueuedRequest>,
    config: CircuitBreakerConfig,
    consecutive_failures: u64,
    last_state_change: u64,
}

impl View for CircuitBreaker {
    type V = BreakerState;

    closed spec fn view(&self) -> BreakerState {
        BreakerState {
            state: self.state,
            failures: self.consecutive_failures,
            last_change: self.last_state_change,
            queue: queue_view(self.queue@),
            config: self.config,
        }
    }
}

fn since(now: u64, then: u64) -> (r: u64)
    ensures
        r == elapsed(now, then),
{
    if now >= then {
        now - then
    } else {
        0
    }
}

impl CircuitBreaker {
    /// A closed breaker with an empty queue, made at `now`.
    pub fn new(config: CircuitBreakerConfig, now: u64) -> (b: CircuitBreaker)
        ensures
            b@ == BreakerState::fresh(config, now),
    {
        let b = CircuitBreaker {
            state: CircuitState::Closed,
            queue: VecDeque::new(),
            config,
            consecutive_failures: 0,
            last_state_change: now,
        };
        assert(queue_view(b.queue@) == Seq::<QueuedFrame>::empty());
        b
    }

    /// The current state.
    pub fn state(&self) -> (s: CircuitState)
        ensures
            s == self@.state,
    {
        self.state
    }

    /// The limits this breaker was made with.
    pub fn config(&self) -> (c: CircuitBreakerConfig)
        ensures
            c == self@.config,
    {
        self.config
    }

    /// How many failures in a row have been counted.
    pub fn consecutive_failures(&self) -> (n: u64)
        ensures
            n == self@.failures,
    {
        self.consecutive_failures
    }

    /// Records a success: the count of failures starts anew, and a half-open
    /// breaker closes.
    pub fn record_success(&mut self, now: u64)
        ensures
            final(self)@ == old(self)@.after_success(now),
    {
        self.consecutive_failures = 0;
        if self.state == CircuitState::HalfOpen {
            self.state = CircuitState::Closed;
            self.last_state_change = now;
        }
    }

    /// Records a failure: counts it, and opens the breaker when the count
    /// has reached the threshold.
    pub fn record_failure(&mut self, now: u64)
        ensures
            final(self)@ == old(self)@.after_failure(now),
    {
        if self.consecutive_failures < u64::MAX {
            self.consecutive_failures = self.consecutive_failures + 1;
        }
        if self.consecutive_failures >= self.config.failure_threshold as u64 && self.state
            != CircuitState::Open {
            self.state = CircuitState::Open;
            self.last_state_change = now;
        }
    }

    /// Decides at `now` what becomes of a frame.
    ///
    /// A closed or half-open breaker lets it pass. An open breaker whose
    /// open time is over becomes half-open and lets this one frame pass as a
    /// probe. An open breaker otherwise queues the frame, or drops it when
    /// the queue is full.
    pub fn try_send(&mut self, data: Vec<u8>, now: u64) -> (r: Dispatch)
        ensures
            final(self)@ == old(self)@.after_send(data@, now),
            match r {
                Dispatch::Pass(d) => old(self)@.verdict(now) is Pass && d@ == data@,
                Dispatch::Queued => old(self)@.verdict(now) is Queued,
                Dispatch::Dropped => old(self)@.verdict(now) is Dropped,
            },
    {
        match self.state {
            CircuitState::Closed => Dispatch::Pass(data),
            CircuitState::HalfOpen => Dispatch::Pass(data),
            CircuitState::Open => {
                if since(now, self.last_state_change) >= self.config.open_timeout {
                    self.state = CircuitState::HalfOpen;
                    self.last_state_change = now;
                    Dispatch::Pass(data)
                } else if self.queue.len() < self.config.max_queue_size {
                    let ghost before = self.queue@;
                    let entry = QueuedRequest { data, queued_at: now };
                    self.queue.push_back(entry);
                    assert(queue_view(self.queue@) == queue_view(before).push(entry@));
                    Dispatch::Queued
                } else {
                    Dispatch::Dropped
                }
            },
        }
    }

    /// Empties the queue at `now` and hands out, in the order in which they
    /// were queued, the frames that are no older than the largest age. The
    /// breaker is closed and its count of failures starts anew.
    pub fn drain_queue(&mut self, now: u64) -> (frames: Vec<Vec<u8>>)
        ensures
            frame_views(frames@) == old(self)@.drained(now),
            final(self)@ == old(self)@.after_drain(now),
    {
        let mut frames: Vec<Vec<u8>> = Vec::new();
        let max_age = self.config.max_request_age;
        let ghost all = queue_view(self.queue@);
        assert(frame_views(frames@) + fresh_frames(all, now, max_age) == fresh_frames(
            all,
            now,
            max_age,
        ));
        loop
            invariant
                frame_views(frames@) + fresh_frames(queue_view(self.queue@), now, max_age)
                    == fresh_frames(all, now, max_age),
                self.state == old(self).state,
                self.config == old(self).config,
            ensures
                self.queue@.len() == 0,
                frame_views(frames@) == fresh_frames(all, now, max_age),
            decreases self.queue@.len(),
        {
            let ghost before = self.queue@;
            match self.queue.pop_front() {
                Some(entry) => {
                    proof {
                        assert(queue_view(before)[0] == entry@);
                        assert(queue_view(before).skip(1) == queue_view(self.queue@));
                    }
                    if since(now, entry.queued_at) <= max_age {
                        let ghost got = frames@;
                        frames.push(entry.data);
                        assert(frame_views(frames@) == frame_views(got) + seq![entry.data@]);
                    }
                },
                None => {
                    assert(queue_view(self.queue@).len() == 0);
                    break ;
                },
            }
        }
        self.state = CircuitState::Closed;
        self.consecutive_failures = 0;
        self.last_state_change = now;
        assert(queue_view(self.queue@) == Seq::<QueuedFrame>::empty());
        frames
    }

    /// How many frames wait in the queue.
    pub fn queue_size(&self) -> (n: usize)
        ensures
            n == self@.queue.len(),
    {
        self.queue.len()
    }
}


/// Law of the queue. A breaker is made with an empty queue, and whatever is
/// done to it, at whatever time, its queue never holds more than the
/// configured number of frames.
pub proof fn lemma_queue_stays_bounded(
    b: BreakerState,
    config: CircuitBreakerConfig,
    data: Seq<u8>,
    now: u64,
)
    ensures
        BreakerState::fresh(config, now).bounded(),
        b.bounded() ==> b.after_success(now).bounded(),
        b.bounded() ==> b.after_failure(now).bounded(),
        b.bounded() ==> b.after_send(data, now).bounded(),
        b.after_drain(now).bounded(),
{
}

/// Law of the drain. The frames that a drain hands out are frames of the
/// queue, in the order of the queue, and they are the frames that are no
/// older than the largest age: frame `i` of the drain is frame `at[i]` of
/// the queue, `at` only grows, every frame at a place of `at` is no older
/// than the largest age, and every frame of the queue that is no older than
/// the largest age is at a place of `at`.
pub proof fn lemma_drained_frames_are_young(b: BreakerState, now: u64) -> (at: Seq<int>)
    ensures
        at.len() == b.drained(now).len(),
        forall|i: int|
            0 <= i < at.len() ==> 0 <= #[trigger] at[i] < b.queue.len() && b.queue[at[i]].data
                == b.drained(now)[i] && elapsed(now, b.queue[at[i]].queued_at)
                <= b.config.max_request_age,
        forall|i: int, j: int| 0 <= i < j < at.len() ==> at[i] < at[j],
        forall|j: int|
            0 <= j < b.queue.len() && elapsed(now, (#[trigger] b.queue[j]).queued_at)
                <= b.config.max_request_age ==> at.contains(j),
{
    lemma_fresh_positions(b.queue, now, b.config.max_request_age)
}

proof fn lemma_fresh_positions(q: Seq<QueuedFrame>, now: u64, max_age: u64) -> (at: Seq<int>)
    ensures
        at.len() == fresh_frames(q, now, max_age).len(),
        forall|i: int|
            0 <= i < at.len() ==> 0 <= #[trigger] at[i] < q.len() && q[at[i]].data == fresh_frames(
                q,
                now,
                max_age,
            )[i] && elapsed(now, q[at[i]].queued_at) <= max_age,
        forall|i: int, j: int| 0 <= i < j < at.len() ==> at[i] < at[j],
        forall|j: int|
            0 <= j < q.len() && elapsed(now, (#[trigger] q[j]).queued_at) <= max_age
                ==> at.contains(j),
    decreases q.len(),
{
    if q.len() == 0 {
        Seq::empty()
    } else {
        let rest = lemma_fresh_positions(q.skip(1), now, max_age);
        let shifted = Seq::new(rest.len(), |i: int| rest[i] + 1);
        assert forall|i: int| 0 <= i < shifted.len() implies q[#[trigger] shifted[i]] == q.skip(
            1,
        )[rest[i]] by {}
        let at = if elapsed(now, q[0].queued_at) <= max_age {
            seq![0int] + shifted
        } else {
            shifted
        };
        let lead = at.len() - shifted.len();
        assert forall|i: int| 0 <= i < at.len() implies 0 <= #[trigger] at[i] < q.len() && q[at[i]].data
            == fresh_frames(q, now, max_age)[i] && elapsed(now, q[at[i]].queued_at)
            <= max_age by {
            if i >= lead {
                assert(at[i] == shifted[i - lead]);
            }
        }
        assert forall|i: int, j: int| 0 <= i < j < at.len() implies at[i] < at[j] by {
            if i >= lead {
                assert(at[i] == shifted[i - lead]);
            }
            assert(at[j] == shifted[j - lead]);
        }
        assert forall|j: int|
            0 <= j < q.len() && elapsed(now, (#[trigger] q[j]).queued_at)
                <= max_age implies at.contains(j) by {
            if j == 0 {
                assert(at[0] == 0);
            } else {
                assert(q.skip(1)[j - 1] == q[j]);
                assert(rest.contains(j - 1));
                let i = choose|i: int| 0 <= i < rest.len() && rest[i] == j - 1;
                assert(at[i + lead] == shifted[i]);
            }
        }
        at
    }
}

/// Law of failures. After as many failures in a row as the threshold asks
/// for, and at least one, the breaker is open, whatever state it was in.
pub proof fn lemma_failures_open(b: BreakerState, times: Seq<u64>)
    requires
        times.len() >= b.config.failure_threshold,
        times.len() >= 1,
    ensures
        b.after_failures(times).state == CircuitState::Open,
{
    lemma_failures_count(b, times);
}

proof fn lemma_failures_count(b: BreakerState, times: Seq<u64>)
    ensures
        b.after_failures(times).config == b.config,
        b.after_failures(times).failures >= times.len() || b.after_failures(times).failures
            == u64::MAX,
        times.len() >= 1 && b.after_failures(times).failures >= b.config.failure_threshold
            ==> b.after_failures(times).state == CircuitState::Open,
    decreases times.len(),
{
    if times.len() > 0 {
        lemma_failures_count(b, times.drop_last());
    }
}

/// Law of the probe. A success recorded while the breaker is half-open
/// closes it and starts the count of failures anew.
pub proof fn lemma_success_closes_half_open(b: BreakerState, now: u64)
    requires
        b.state == CircuitState::HalfOpen,
    ensures
        b.after_success(now).state == CircuitState::Closed,
        b.after_success(now).failures == 0,
{
}

} // verus!
