use std::collections::VecDeque;
use vstd::prelude::*;
use vstd::relations::{sorted_by, total_ordering};
use vstd::seq_lib::lemma_sorted_unique;

verus! {

/// Number of recent ping/pong samples a `ClockSync` keeps.
pub const MAX_SAMPLES: usize = 10;

/// Errors of clock conversions.
#[derive(Debug, PartialEq, Eq, Structural)]
pub enum SyncError {
    /// No clock offset has been estimated yet.
    NoClockOffset,
    /// Too few samples to estimate an offset.
    InsufficientSamples,
    /// A reference time lies in the future.
    FutureReference,
    /// A converted time would be negative or exceed `u64::MAX`.
    TimeConversionOverflow,
}

/// One ping/pong measurement: the clock offset it suggests and its round trip time.
#[derive(Debug, Clone, Copy)]
pub struct ClockSample {
    pub offset_ms: i64,
    pub rtt_ms: u64,
}

/// How a sample ranks among the samples of a window: by round trip time, then by
/// arrival position (earlier first), then by offset.
pub type RankKey = (u64, usize, i64);

// ----------------------------------------------------------------------------
// The model of one ping/pong exchange
// ----------------------------------------------------------------------------

/// Round trip time of an exchange; a receive time before the send time counts as 0.
pub open spec fn pong_rtt(send_time_ms: u64, recv_time_ms: u64) -> int {
    if recv_time_ms >= send_time_ms {
        recv_time_ms - send_time_ms
    } else {
        0
    }
}

/// The local time at which the remote clock is taken to have read `remote_time_ms`:
/// the send time plus half the round trip.
pub open spec fn pong_local_estimate(send_time_ms: u64, recv_time_ms: u64) -> int {
    send_time_ms + pong_rtt(send_time_ms, recv_time_ms) / 2
}

/// The offset an exchange suggests, `remote - local`, both times read as `i64`
/// (a value above `i64::MAX` wraps, as `as i64` does).
pub open spec fn pong_offset(send_time_ms: u64, remote_time_ms: u64, recv_time_ms: u64) -> int {
    (remote_time_ms as i64) - (pong_local_estimate(send_time_ms, recv_time_ms) as u64 as i64)
}

/// The offset of an exchange fits in an `i64`.
pub open spec fn pong_defined(send_time_ms: u64, remote_time_ms: u64, recv_time_ms: u64) -> bool {
    i64::MIN <= pong_offset(send_time_ms, remote_time_ms, recv_time_ms) <= i64::MAX
}

/// The sample recorded for an exchange.
pub open spec fn pong_sample(send_time_ms: u64, remote_time_ms: u64, recv_time_ms: u64) -> ClockSample {
    ClockSample {
        offset_ms: pong_offset(send_time_ms, remote_time_ms, recv_time_ms) as i64,
        rtt_ms: pong_rtt(send_time_ms, recv_time_ms) as u64,
    }
}

/// The window after a new sample arrives: the oldest sample leaves once the window is full.
pub open spec fn admit_sample(window: Seq<ClockSample>, sample: ClockSample, capacity: nat) -> Seq<
    ClockSample,
> {
    if window.len() >= capacity {
        window.drop_first().push(sample)
    } else {
        window.push(sample)
    }
}

// ----------------------------------------------------------------------------
// The offset estimate of a window
// ----------------------------------------------------------------------------

pub open spec fn rank_le(a: RankKey, b: RankKey) -> bool {
    a.0 < b.0 || (a.0 == b.0 && (a.1 < b.1 || (a.1 == b.1 && a.2 <= b.2)))
}

pub open spec fn rank_order() -> spec_fn(RankKey, RankKey) -> bool {
    |a: RankKey, b: RankKey| rank_le(a, b)
}

pub open spec fn offset_order() -> spec_fn(i64, i64) -> bool {
    |a: i64, b: i64| a <= b
}

/// The rank key of each sample of a window, in arrival order.
pub open spec fn rank_keys(window: Seq<ClockSample>) -> Seq<RankKey> {
    Seq::new(window.len(), |i: int| (window[i].rtt_ms, i as usize, window[i].offset_ms))
}

/// How many of `n` samples count as the reliable half: `n / 2` rounded up.
pub open spec fn best_count(n: nat) -> nat {
    (n + 1) / 2
}

/// Offsets of the reliable half of a window: the samples with the lowest round trip
/// times, ties going to the earlier sample.
pub open spec fn best_offsets(window: Seq<ClockSample>) -> Seq<i64> {
    rank_keys(window).sort_by(rank_order()).take(best_count(window.len()) as int).map_values(
        |k: RankKey| k.2,
    )
}

/// The offsets of the reliable half in ascending order.
pub open spec fn sorted_best_offsets(window: Seq<ClockSample>) -> Seq<i64> {
    best_offsets(window).sort_by(offset_order())
}

/// Halving rounded toward zero, as integer division of `i64` does.
pub open spec fn half_toward_zero(x: int) -> int {
    if x >= 0 {
        x / 2
    } else {
        -((-x) / 2)
    }
}

/// The median of an ascending sequence; for an even length, the mean of the two middle
/// values rounded toward zero.
pub open spec fn median(sorted: Seq<i64>) -> int {
    let m = sorted.len() as int;
    if m % 2 == 0 {
        half_toward_zero(sorted[m / 2 - 1] + sorted[m / 2])
    } else {
        sorted[m / 2] as int
    }
}

/// The sum of the two middle values of an even-length ascending sequence fits in an `i64`.
pub open spec fn median_computable(sorted: Seq<i64>) -> bool {
    let m = sorted.len() as int;
    m % 2 == 1 || (i64::MIN <= sorted[m / 2 - 1] + sorted[m / 2] <= i64::MAX)
}

/// The offset estimate of a window: none for an empty window, else the median offset of
/// its reliable half.
pub open spec fn window_estimate(window: Seq<ClockSample>) -> Option<int> {
    if window.len() == 0 {
        None
    } else {
        Some(median(sorted_best_offsets(window)))
    }
}

/// The estimate of a window can be computed in `i64` arithmetic.
pub open spec fn estimate_computable(window: Seq<ClockSample>) -> bool {
    window.len() == 0 || median_computable(sorted_best_offsets(window))
}

pub open spec fn widen(offset: Option<i64>) -> Option<int> {
    match offset {
        Some(o) => Some(o as int),
        None => None,
    }
}

// ----------------------------------------------------------------------------
// Converting times by an offset
// ----------------------------------------------------------------------------

/// The result of shifting `time_ms` by `offset` with checked arithmetic.
pub open spec fn shift_result(time_ms: u64, offset: Option<int>) -> Result<u64, SyncError> {
    match offset {
        None => Err(SyncError::NoClockOffset),
        Some(o) => if 0 <= time_ms + o <= u64::MAX {
            Ok((time_ms + o) as u64)
        } else {
            Err(SyncError::TimeConversionOverflow)
        },
    }
}

pub open spec fn negate(offset: Option<int>) -> Option<int> {
    match offset {
        Some(o) => Some(-o),
        None => None,
    }
}

/// The magnitude of a signed offset as an unsigned number, exact for every `i64`.
fn magnitude(offset: i64) -> (m: u64)
    ensures
        m as int == if offset >= 0 {
            offset as int
        } else {
            -(offset as int)
        },
{
    if offset >= 0 {
        offset as u64
    } else {
        let below: i64 = -(offset + 1);
        below as u64 + 1
    }
}

/// Adds `offset` to `time_ms` when `add` holds and subtracts it otherwise, with checked
/// arithmetic.
fn shift_checked(time_ms: u64, offset: i64, add: bool) -> (r: Result<u64, SyncError>)
    ensures
        r == shift_result(
            time_ms,
            Some(
                if add {
                    offset as int
                } else {
                    -(offset as int)
                },
            ),
        ),
{
    let m = magnitude(offset);
    if (offset >= 0) == add {
        match time_ms.checked_add(m) {
            Some(t) => Ok(t),
            None => Err(SyncError::TimeConversionOverflow),
        }
    } else {
        match time_ms.checked_sub(m) {
            Some(t) => Ok(t),
            None => Err(SyncError::TimeConversionOverflow),
        }
    }
}

// ----------------------------------------------------------------------------
// Sorting
// ----------------------------------------------------------------------------

fn rank_le_exec(a: RankKey, b: RankKey) -> (r: bool)
    ensures
        r == rank_le(a, b),
{
    a.0 < b.0 || (a.0 == b.0 && (a.1 < b.1 || (a.1 == b.1 && a.2 <= b.2)))
}

pub proof fn lemma_rank_order_total()
    ensures
        total_ordering(rank_order()),
{
}

pub proof fn lemma_offset_order_total()
    ensures
        total_ordering(offset_order()),
{
}

/// Inserting `x` in front of the first element of a sorted sequence that ranks after it
/// keeps the sequence sorted.
proof fn lemma_insert_keeps_sorted<A>(s: Seq<A>, p: int, x: A, leq: spec_fn(A, A) -> bool)
    requires
        total_ordering(leq),
        sorted_by(s, leq),
        0 <= p <= s.len(),
        forall|j: int| 0 <= j < p ==> #[trigger] leq(s[j], x),
        p < s.len() ==> !leq(s[p], x),
    ensures
        sorted_by(s.insert(p, x), leq),
{
    let t = s.insert(p, x);
    assert forall|a: int, b: int| 0 <= a < b < t.len() implies #[trigger] leq(t[a], t[b]) by {
        if b < p {
            assert(leq(s[a], s[b]));
        } else if b == p {
            assert(leq(s[a], x));
        } else if a < p {
            assert(leq(s[a], s[b - 1]));
        } else if a == p {
            assert(leq(x, s[p]));
            if p < b - 1 {
                assert(leq(s[p], s[b - 1]));
            }
        } else {
            assert(leq(s[a - 1], s[b - 1]));
        }
    }
}

/// Sorts rank keys ascending by insertion.
fn sort_rank_keys(keys: &Vec<RankKey>) -> (sorted: Vec<RankKey>)
    ensures
        sorted_by(sorted@, rank_order()),
        sorted@.to_multiset() == keys@.to_multiset(),
{
    broadcast use vstd::seq_lib::group_to_multiset_ensures;

    let mut sorted: Vec<RankKey> = Vec::new();
    let n = keys.len();
    for i in 0..n
        invariant
            n == keys@.len(),
            sorted_by(sorted@, rank_order()),
            sorted@.to_multiset() == keys@.take(i as int).to_multiset(),
    {
        let x = keys[i];
        let mut p: usize = 0;
        while p < sorted.len() && rank_le_exec(sorted[p], x)
            invariant
                p <= sorted@.len(),
                forall|j: int| 0 <= j < p ==> rank_le(#[trigger] sorted@[j], x),
            decreases sorted@.len() - p,
        {
            p = p + 1;
        }
        let ghost before = sorted@;
        sorted.insert(p, x);
        proof {
            lemma_rank_order_total();
            lemma_insert_keeps_sorted(before, p as int, x, rank_order());
            assert(keys@.take(i + 1) =~= keys@.take(i as int).push(x));
            vstd::seq_lib::to_multiset_insert(before, p as int, x);
            vstd::seq_lib::to_multiset_build(keys@.take(i as int), x);
        }
    }
    assert(keys@.take(n as int) =~= keys@);
    sorted
}

/// Sorts offsets ascending by insertion.
fn sort_offsets(offsets: &Vec<i64>) -> (sorted: Vec<i64>)
    ensures
        sorted_by(sorted@, offset_order()),
        sorted@.to_multiset() == offsets@.to_multiset(),
{
    broadcast use vstd::seq_lib::group_to_multiset_ensures;

    let mut sorted: Vec<i64> = Vec::new();
    let n = offsets.len();
    for i in 0..n
        invariant
            n == offsets@.len(),
            sorted_by(sorted@, offset_order()),
            sorted@.to_multiset() == offsets@.take(i as int).to_multiset(),
    {
        let x = offsets[i];
        let mut p: usize = 0;
        while p < sorted.len() && sorted[p] <= x
            invariant
                p <= sorted@.len(),
                forall|j: int| 0 <= j < p ==> #[trigger] sorted@[j] <= x,
            decreases sorted@.len() - p,
        {
            p = p + 1;
        }
        let ghost before = sorted@;
        sorted.insert(p, x);
        proof {
            lemma_offset_order_total();
            lemma_insert_keeps_sorted(before, p as int, x, offset_order());
            assert(offsets@.take(i + 1) =~= offsets@.take(i as int).push(x));
            vstd::seq_lib::to_multiset_insert(before, p as int, x);
            vstd::seq_lib::to_multiset_build(offsets@.take(i as int), x);
        }
    }
    assert(offsets@.take(n as int) =~= offsets@);
    sorted
}

// ----------------------------------------------------------------------------
// Clock synchronisation state
// ----------------------------------------------------------------------------

/// Clock synchronisation state.
///
/// Estimates the offset between the local and a remote clock from ping/pong exchanges
/// (`remote_time = local_time + offset`), keeping the most recent `MAX_SAMPLES` samples
/// and taking the median offset of the half of them with the lowest round trip times.
pub struct ClockSync {
    offset_ms: Option<i64>,
    samples: VecDeque<ClockSample>,
    max_samples: usize,
}

impl ClockSync {
    /// The samples kept, oldest first.
    pub closed spec fn window(&self) -> Seq<ClockSample> {
        self.samples@
    }

    /// How many samples the window holds at most.
    pub closed spec fn capacity(&self) -> nat {
        self.max_samples as nat
    }

    /// The current offset estimate.
    pub closed spec fn offset(&self) -> Option<i64> {
        self.offset_ms
    }

    /// The state is consistent: the window holds at most `MAX_SAMPLES` samples and the
    /// offset is the estimate of the window.
    #[verifier::type_invariant]
    pub closed spec fn wf(&self) -> bool {
        &&& self.max_samples == MAX_SAMPLES
        &&& self.samples@.len() <= self.max_samples
        &&& widen(self.offset_ms) == window_estimate(self.samples@)
    }

    /// Creates a clock sync instance with no samples and no offset.
    pub fn new() -> (s: Self)
        ensures
            s.window() == Seq::<ClockSample>::empty(),
            s.offset() is None,
            s.capacity() == MAX_SAMPLES,
    {
        ClockSync {
            offset_ms: None,
            samples: VecDeque::with_capacity(MAX_SAMPLES),
            max_samples: MAX_SAMPLES,
        }
    }

    /// Processes a ping/pong exchange: `send_time_ms` is the local time the ping was
    /// sent, `remote_time_ms` the remote time the pong was created, `recv_time_ms` the
    /// local time the pong was received. The sample joins the window (the oldest sample
    /// leaving a full window) and the offset becomes the estimate of the new window.
    pub fn process_pong(&mut self, send_time_ms: u64, remote_time_ms: u64, recv_time_ms: u64)
        requires
            pong_defined(send_time_ms, remote_time_ms, recv_time_ms),
            estimate_computable(
                admit_sample(
                    old(self).window(),
                    pong_sample(send_time_ms, remote_time_ms, recv_time_ms),
                    old(self).capacity(),
                ),
            ),
        ensures
            final(self).capacity() == old(self).capacity(),
            final(self).window() == admit_sample(
                old(self).window(),
                pong_sample(send_time_ms, remote_time_ms, recv_time_ms),
                old(self).capacity(),
            ),
            widen(final(self).offset()) == window_estimate(final(self).window()),
            final(self).offset() is Some,
    {
        proof {
            use_type_invariant(&*self);
        }
        let rtt_ms = recv_time_ms.saturating_sub(send_time_ms);
        let one_way_ms = rtt_ms / 2;
        let estimated_local_at_remote = send_time_ms + one_way_ms;
        let offset_ms = remote_time_ms as i64 - estimated_local_at_remote as i64;
        let sample = ClockSample { offset_ms, rtt_ms };
        assert(sample == pong_sample(send_time_ms, remote_time_ms, recv_time_ms));
        // Take the state out whole, so that it is consistent at every step.
        let mut current = ClockSync::new();
        std::mem::swap(self, &mut current);
        let ClockSync { offset_ms: _, mut samples, max_samples } = current;
        let ghost before = samples@;
        if samples.len() >= max_samples {
            samples.pop_front();
        }
        samples.push_back(sample);
        assert(samples@ =~= admit_sample(before, sample, max_samples as nat));
        let median_offset = Self::update_offset(&samples);
        *self = ClockSync { offset_ms: Some(median_offset), samples, max_samples };
    }

    /// The offset estimate of a non-empty window: the median offset of its reliable half.
    fn update_offset(samples: &VecDeque<ClockSample>) -> (median_offset: i64)
        requires
            0 < samples@.len() <= MAX_SAMPLES,
            estimate_computable(samples@),
        ensures
            window_estimate(samples@) == Some(median_offset as int),
    {
        let ghost w = samples@;
        let n = samples.len();
        // Rank every sample by round trip time, earlier samples first among equals.
        let mut keys: Vec<RankKey> = Vec::new();
        let mut i: usize = 0;
        while i < n
            invariant
                n == w.len(),
                w == samples@,
                i <= n,
                keys@ =~= rank_keys(w).take(i as int),
            decreases n - i,
        {
            let s = samples[i];
            keys.push((s.rtt_ms, i, s.offset_ms));
            i = i + 1;
        }
        assert(keys@ =~= rank_keys(w));
        let ranked = sort_rank_keys(&keys);
        proof {
            broadcast use vstd::seq_lib::group_to_multiset_ensures;

            lemma_rank_order_total();
            rank_keys(w).lemma_sort_by_ensures(rank_order());
            lemma_sorted_unique(ranked@, rank_keys(w).sort_by(rank_order()), rank_order());
            assert(ranked@.to_multiset().len() == keys@.to_multiset().len());
            assert(ranked@.len() == n);
        }
        // Offsets of the better half.
        let best = (n + 1) / 2;
        let mut best_offsets_v: Vec<i64> = Vec::new();
        for j in 0..best
            invariant
                best <= ranked@.len(),
                best_offsets_v@.len() == j,
                forall|t: int| 0 <= t < j ==> #[trigger] best_offsets_v@[t] == ranked@[t].2,
        {
            best_offsets_v.push(ranked[j].2);
        }
        assert(best_offsets_v@ =~= best_offsets(w));
        let sorted = sort_offsets(&best_offsets_v);
        proof {
            broadcast use vstd::seq_lib::group_to_multiset_ensures;

            lemma_offset_order_total();
            best_offsets(w).lemma_sort_by_ensures(offset_order());
            lemma_sorted_unique(sorted@, sorted_best_offsets(w), offset_order());
            assert(sorted@.to_multiset().len() == best_offsets_v@.to_multiset().len());
            assert(sorted@.len() == best);
        }
        // Median of the better half.
        let m = sorted.len();
        let half = m / 2;
        if m % 2 == 0 {
            (sorted[half - 1] + sorted[half]) / 2
        } else {
            sorted[half]
        }
    }

    /// The estimated clock offset: `remote_time = local_time + offset`.
    pub fn offset_ms(&self) -> (r: Option<i64>)
        ensures
            r == self.offset(),
    {
        self.offset_ms
    }

    /// Converts a local time to the estimated remote time, `local_ms + offset`.
    /// Fails without an offset, and when the result would be negative or exceed `u64::MAX`.
    pub fn local_to_remote(&self, local_ms: u64) -> (r: Result<u64, SyncError>)
        ensures
            r == shift_result(local_ms, widen(self.offset())),
            (self.offset() is None ==> r == Err::<u64, SyncError>(SyncError::NoClockOffset)),
            (self.offset() matches Some(o) ==> (0 <= local_ms + o <= u64::MAX ==> r == Ok::<
                u64,
                SyncError,
            >((local_ms + o) as u64))),
            (self.offset() matches Some(o) ==> (!(0 <= local_ms + o <= u64::MAX) ==> r == Err::<
                u64,
                SyncError,
            >(SyncError::TimeConversionOverflow))),
    {
        match self.offset_ms {
            None => Err(SyncError::NoClockOffset),
            Some(offset) => shift_checked(local_ms, offset, true),
        }
    }

    /// Converts a remote time to the estimated local time, `remote_ms - offset`.
    /// Fails without an offset, and when the result would be negative or exceed `u64::MAX`.
    pub fn remote_to_local(&self, remote_ms: u64) -> (r: Result<u64, SyncError>)
        ensures
            r == shift_result(remote_ms, negate(widen(self.offset()))),
            (self.offset() is None ==> r == Err::<u64, SyncError>(SyncError::NoClockOffset)),
            (self.offset() matches Some(o) ==> (0 <= remote_ms - o <= u64::MAX ==> r == Ok::<
                u64,
                SyncError,
            >((remote_ms - o) as u64))),
            (self.offset() matches Some(o) ==> (!(0 <= remote_ms - o <= u64::MAX) ==> r == Err::<
                u64,
                SyncError,
            >(SyncError::TimeConversionOverflow))),
    {
        match self.offset_ms {
            None => Err(SyncError::NoClockOffset),
            Some(offset) => shift_checked(remote_ms, offset, false),
        }
    }

    /// Whether an offset has been estimated, which is whether any sample is kept.
    pub fn is_synced(&self) -> (r: bool)
        ensures
            r == self.offset() is Some,
            r == (self.window().len() > 0),
    {
        proof {
            use_type_invariant(self);
        }
        self.offset_ms.is_some()
    }

    /// Drops all samples and the offset.
    pub fn reset(&mut self)
        ensures
            final(self).capacity() == old(self).capacity(),
            final(self).window() == Seq::<ClockSample>::empty(),
            final(self).offset() is None,
    {
        proof {
            use_type_invariant(&*self);
        }
        let mut current = ClockSync::new();
        std::mem::swap(self, &mut current);
        let ClockSync { offset_ms: _, mut samples, max_samples } = current;
        samples.clear();
        *self = ClockSync { offset_ms: None, samples, max_samples };
    }
}

/// Every consistent `ClockSync` holds at most `MAX_SAMPLES` samples, and its offset is the
/// estimate of the samples it holds: none exactly when it holds no sample.
pub proof fn lemma_offset_tracks_window(sync: &ClockSync)
    requires
        sync.wf(),
    ensures
        sync.capacity() == MAX_SAMPLES,
        sync.window().len() <= sync.capacity(),
        widen(sync.offset()) == window_estimate(sync.window()),
        sync.offset() is Some <==> sync.window().len() > 0,
{
}

impl Default for ClockSync {
    fn default() -> (s: Self)
        ensures
            s.window() == Seq::<ClockSample>::empty(),
            s.offset() is None,
            s.capacity() == MAX_SAMPLES,
    {
        Self::new()
    }
}

} // verus!
