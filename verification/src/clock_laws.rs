use crate::clock;
use crate::clock::{ClockSample, ClockSync, RankKey, SyncError, MAX_SAMPLES};
use vstd::prelude::*;
use vstd::relations::{sorted_by, total_ordering};
use vstd::seq_lib::lemma_sorted_unique;

verus! {

/// Sorting a one-element sequence leaves it unchanged.
proof fn lemma_sort_singleton<A>(x: A, leq: spec_fn(A, A) -> bool)
    requires
        total_ordering(leq),
    ensures
        seq![x].sort_by(leq) == seq![x],
{
    seq![x].lemma_sort_by_ensures(leq);
    assert(sorted_by(seq![x], leq));
    lemma_sorted_unique(seq![x], seq![x].sort_by(leq), leq);
}

/// Every element of a sorted sequence occurs in the sequence that was sorted.
proof fn lemma_sort_keeps_elements<A>(s: Seq<A>, leq: spec_fn(A, A) -> bool, t: int)
    requires
        total_ordering(leq),
        0 <= t < s.sort_by(leq).len(),
    ensures
        s.contains(s.sort_by(leq)[t]),
{
    s.lemma_sort_by_ensures(leq);
    assert(s.sort_by(leq).contains(s.sort_by(leq)[t]));
}

/// A window of one sample estimates that sample's offset.
pub proof fn lemma_single_sample_estimate(sample: ClockSample)
    ensures
        clock::window_estimate(seq![sample]) == Some(sample.offset_ms as int),
{
    let w = seq![sample];
    let k: RankKey = (sample.rtt_ms, 0usize, sample.offset_ms);
    assert(clock::rank_keys(w) =~= seq![k]);
    clock::lemma_rank_order_total();
    lemma_sort_singleton(k, clock::rank_order());
    assert(clock::best_offsets(w) =~= seq![sample.offset_ms]);
    clock::lemma_offset_order_total();
    lemma_sort_singleton(sample.offset_ms, clock::offset_order());
}

/// Each offset of the reliable half is the offset of some sample of the window.
proof fn lemma_best_offsets_from_window(w: Seq<ClockSample>, t: int)
    requires
        0 <= t < clock::best_offsets(w).len(),
    ensures
        exists|i: int| 0 <= i < w.len() && w[i].offset_ms == #[trigger] clock::best_offsets(w)[t],
{
    clock::lemma_rank_order_total();
    lemma_best_offsets_len(w);
    let ranked = clock::rank_keys(w).sort_by(clock::rank_order());
    lemma_sort_keeps_elements(clock::rank_keys(w), clock::rank_order(), t);
    let i = choose|i: int| 0 <= i < clock::rank_keys(w).len() && clock::rank_keys(w)[i] == ranked[t];
    assert(clock::best_offsets(w)[t] == ranked[t].2);
    assert(clock::rank_keys(w)[i].2 == w[i].offset_ms);
}

/// Each offset of the sorted reliable half is the offset of some sample of the window.
proof fn lemma_sorted_best_offsets_from_window(w: Seq<ClockSample>, t: int)
    requires
        0 <= t < clock::sorted_best_offsets(w).len(),
    ensures
        exists|i: int| 0 <= i < w.len() && w[i].offset_ms == #[trigger] clock::sorted_best_offsets(w)[t],
{
    clock::lemma_offset_order_total();
    lemma_best_offsets_len(w);
    lemma_sort_keeps_elements(clock::best_offsets(w), clock::offset_order(), t);
    let u = choose|u: int|
        0 <= u < clock::best_offsets(w).len() && clock::best_offsets(w)[u] == clock::sorted_best_offsets(w)[t];
    lemma_best_offsets_from_window(w, u);
}

/// The reliable half holds `best_count` offsets, and so does its sorted form.
proof fn lemma_best_offsets_len(w: Seq<ClockSample>)
    ensures
        clock::rank_keys(w).sort_by(clock::rank_order()).len() == w.len(),
        clock::best_offsets(w).len() == clock::best_count(w.len()),
        clock::sorted_best_offsets(w).len() == clock::best_count(w.len()),
{
    broadcast use vstd::seq_lib::group_to_multiset_ensures;

    clock::lemma_rank_order_total();
    clock::lemma_offset_order_total();
    clock::rank_keys(w).lemma_sort_by_ensures(clock::rank_order());
    let ranked = clock::rank_keys(w).sort_by(clock::rank_order());
    assert(ranked.to_multiset().len() == clock::rank_keys(w).to_multiset().len());
    clock::best_offsets(w).lemma_sort_by_ensures(clock::offset_order());
    assert(clock::sorted_best_offsets(w).to_multiset().len() == clock::best_offsets(
        w,
    ).to_multiset().len());
}

/// The offsets of the samples of a window, in order.
pub open spec fn sample_offsets(samples: Seq<ClockSample>) -> Seq<i64> {
    Seq::new(samples.len(), |j: int| samples[j].offset_ms)
}

/// The reliable half of a window of `n` samples holds `(n + 1) / 2` of them: half the
/// window, rounded up.
pub proof fn lemma_best_half_size(w: Seq<ClockSample>)
    ensures
        clock::best_offsets(w).len() == (w.len() + 1) / 2,
        clock::sorted_best_offsets(w).len() == (w.len() + 1) / 2,
{
    lemma_best_offsets_len(w);
}

/// When all samples of a non-empty window share one round trip time, the reliable half is
/// the `(n + 1) / 2` oldest samples: the estimate is the median of their offsets.
pub proof fn lemma_equal_rtt_estimate(w: Seq<ClockSample>)
    requires
        0 < w.len() <= usize::MAX,
        forall|j: int| 0 <= j < w.len() ==> (#[trigger] w[j]).rtt_ms == w[0].rtt_ms,
    ensures
        clock::window_estimate(w) == Some(
            clock::median(
                sample_offsets(w.take(((w.len() + 1) / 2) as int)).sort_by(clock::offset_order()),
            ),
        ),
{
    let keys = clock::rank_keys(w);
    clock::lemma_rank_order_total();
    keys.lemma_sort_by_ensures(clock::rank_order());
    assert(vstd::relations::sorted_by(keys, clock::rank_order())) by {
        assert forall|a: int, b: int| 0 <= a < b < keys.len() implies #[trigger] clock::rank_order()(
            keys[a],
            keys[b],
        ) by {
            assert(w[a].rtt_ms == w[0].rtt_ms);
            assert(w[b].rtt_ms == w[0].rtt_ms);
        }
    }
    lemma_sorted_unique(keys, keys.sort_by(clock::rank_order()), clock::rank_order());
    lemma_best_offsets_len(w);
    assert(clock::best_offsets(w) =~= sample_offsets(w.take(((w.len() + 1) / 2) as int)));
}

/// The offset estimate of a non-empty window lies between the smallest and the largest
/// offset of its samples.
pub proof fn lemma_estimate_within_window(w: Seq<ClockSample>)
    requires
        w.len() > 0,
    ensures
        exists|i: int, j: int|
            0 <= i < w.len() && 0 <= j < w.len() && #[trigger] w[i].offset_ms
                <= clock::window_estimate(w).unwrap() <= #[trigger] w[j].offset_ms,
{
    lemma_best_offsets_len(w);
    clock::lemma_offset_order_total();
    clock::best_offsets(w).lemma_sort_by_ensures(clock::offset_order());
    let o = clock::sorted_best_offsets(w);
    let m = o.len() as int;
    if m % 2 == 0 {
        lemma_sorted_best_offsets_from_window(w, m / 2 - 1);
        lemma_sorted_best_offsets_from_window(w, m / 2);
        assert(clock::offset_order()(o[m / 2 - 1], o[m / 2]));
        let i = choose|i: int| 0 <= i < w.len() && w[i].offset_ms == o[m / 2 - 1];
        let j = choose|j: int| 0 <= j < w.len() && w[j].offset_ms == o[m / 2];
        assert(w[i].offset_ms <= clock::window_estimate(w).unwrap() <= w[j].offset_ms);
    } else {
        lemma_sorted_best_offsets_from_window(w, m / 2);
        let i = choose|i: int| 0 <= i < w.len() && w[i].offset_ms == o[m / 2];
        assert(w[i].offset_ms <= clock::window_estimate(w).unwrap() <= w[i].offset_ms);
    }
}

/// When every sample of a non-empty window suggests the same offset, that offset is the
/// estimate.
pub proof fn lemma_uniform_window_estimate(w: Seq<ClockSample>, offset: i64)
    requires
        w.len() > 0,
        forall|i: int| 0 <= i < w.len() ==> (#[trigger] w[i]).offset_ms == offset,
    ensures
        clock::window_estimate(w) == Some(offset as int),
{
    lemma_estimate_within_window(w);
}

/// Shifting a time by an offset adds the offset: the sum when it is a valid time, an
/// overflow error when it is not, and a missing-offset error only when there is no offset.
/// Conversion to remote time shifts by the offset, conversion to local time by its negation.
pub proof fn lemma_shift_adds_offset(time_ms: u64, offset: Option<int>)
    ensures
        (offset is None ==> clock::shift_result(time_ms, offset) == Err::<u64, SyncError>(
            SyncError::NoClockOffset,
        )),
        (offset matches Some(o) ==> (0 <= time_ms + o <= u64::MAX ==> clock::shift_result(
            time_ms,
            offset,
        ) == Ok::<u64, SyncError>((time_ms + o) as u64))),
        (offset matches Some(o) ==> (!(0 <= time_ms + o <= u64::MAX) ==> clock::shift_result(
            time_ms,
            offset,
        ) == Err::<u64, SyncError>(SyncError::TimeConversionOverflow))),
        (offset matches Some(o) ==> clock::negate(offset) == Some(-o)),
        (offset is None ==> clock::negate(offset) is None),
{
}

/// Converting a local time to remote time and back gives the local time again, and the
/// same holds the other way round: the two conversions of a `ClockSync` are inverse
/// wherever they succeed.
pub proof fn lemma_conversions_inverse(sync: &ClockSync, local_ms: u64, remote_ms: u64)
    ensures
        clock::shift_result(local_ms, clock::widen(sync.offset())) == Ok::<u64, SyncError>(remote_ms)
            ==> clock::shift_result(remote_ms, clock::negate(clock::widen(sync.offset()))) == Ok::<u64, SyncError>(
            local_ms,
        ),
        clock::shift_result(remote_ms, clock::negate(clock::widen(sync.offset()))) == Ok::<u64, SyncError>(local_ms)
            ==> clock::shift_result(local_ms, clock::widen(sync.offset())) == Ok::<u64, SyncError>(remote_ms),
{
}

/// A window whose reliable half has an odd number of samples always has an estimate
/// that `i64` arithmetic can compute: no two middle offsets need to be added.
pub proof fn lemma_estimate_computable_odd_half(w: Seq<ClockSample>)
    requires
        clock::best_count(w.len()) % 2 == 1,
    ensures
        clock::estimate_computable(w),
{
    lemma_best_offsets_len(w);
}

/// Samples of a window whose round trip time is below `rtt_ms`.
pub open spec fn faster_than(rtt_ms: u64) -> spec_fn(ClockSample) -> bool {
    |s: ClockSample| s.rtt_ms < rtt_ms
}

/// Rank keys whose round trip time is below `rtt_ms`.
spec fn key_faster_than(rtt_ms: u64) -> spec_fn(RankKey) -> bool {
    |k: RankKey| k.0 < rtt_ms
}

/// Two sequences with the same elements have equally many elements satisfying a predicate.
proof fn lemma_permutation_filter_len<A>(a: Seq<A>, b: Seq<A>, pred: spec_fn(A) -> bool)
    requires
        a.to_multiset() == b.to_multiset(),
    ensures
        a.filter(pred).len() == b.filter(pred).len(),
    decreases a.len(),
{
    broadcast use vstd::seq_lib::group_to_multiset_ensures;
    broadcast use vstd::multiset::group_multiset_axioms;
    broadcast use vstd::seq::Seq::filter_distributes_over_add;

    reveal(Seq::filter);
    if a.len() == 0 {
        assert(b.to_multiset().len() == 0);
        assert(b.len() == 0);
    } else {
        let x = a.last();
        let a0 = a.drop_last();
        assert(a0.push(x) =~= a);
        assert(a.to_multiset() == a0.to_multiset().insert(x));
        assert(b.to_multiset().count(x) > 0);
        assert(b.contains(x));
        let j = choose|j: int| 0 <= j < b.len() && b[j] == x;
        let b0 = b.remove(j);
        vstd::seq_lib::to_multiset_remove(b, j);
        assert(b0.to_multiset() =~= a0.to_multiset());
        lemma_permutation_filter_len(a0, b0, pred);
        let front = b.take(j);
        let back = b.skip(j + 1);
        assert(b =~= front + seq![x] + back);
        assert(b0 =~= front + back);
        assert(seq![x].drop_last() =~= Seq::<A>::empty());
        assert(seq![x].drop_last().filter(pred).len() == 0);
        assert(seq![x].filter(pred).len() == if pred(x) {
            1int
        } else {
            0int
        });
        assert((front + seq![x] + back).filter(pred) == (front + seq![x]).filter(pred) + back.filter(
            pred,
        ));
        assert((front + seq![x]).filter(pred) == front.filter(pred) + seq![x].filter(pred));
        assert((front + back).filter(pred) == front.filter(pred) + back.filter(pred));
    }
}

/// Counting rank keys below a round trip time counts the samples below it.
proof fn lemma_rank_keys_faster(w: Seq<ClockSample>, rtt_ms: u64)
    ensures
        clock::rank_keys(w).filter(key_faster_than(rtt_ms)).len() == w.filter(
            faster_than(rtt_ms),
        ).len(),
    decreases w.len(),
{
    reveal(Seq::filter);
    if w.len() > 0 {
        assert(clock::rank_keys(w).drop_last() =~= clock::rank_keys(w.drop_last()));
        lemma_rank_keys_faster(w.drop_last(), rtt_ms);
    }
}

/// A sample whose round trip time is beaten by at least the size of the reliable half
/// plays no part in the estimate: whatever offset it suggests, the estimate stays the same.
pub proof fn lemma_slow_sample_ignored(w: Seq<ClockSample>, i: int, offset_ms: i64)
    requires
        w.len() <= usize::MAX,
        0 <= i < w.len(),
        w.filter(faster_than(w[i].rtt_ms)).len() >= clock::best_count(w.len()),
    ensures
        clock::window_estimate(w.update(i, ClockSample { offset_ms, rtt_ms: w[i].rtt_ms }))
            == clock::window_estimate(w),
{
    broadcast use vstd::seq_lib::group_to_multiset_ensures;
    broadcast use vstd::multiset::group_multiset_axioms;
    broadcast use vstd::seq::Seq::filter_distributes_over_add;

    let n = w.len();
    let k = clock::best_count(n);
    let r = w[i].rtt_ms;
    let w2 = w.update(i, ClockSample { offset_ms, rtt_ms: r });
    let keys = clock::rank_keys(w);
    let keys2 = clock::rank_keys(w2);
    let ki = keys[i];
    let ki2: RankKey = (r, i as usize, offset_ms);
    assert(keys2 =~= keys.update(i, ki2));
    clock::lemma_rank_order_total();
    keys.lemma_sort_by_ensures(clock::rank_order());
    let sorted = keys.sort_by(clock::rank_order());
    lemma_best_offsets_len(w);
    // Each key carries its own position, so keys are distinct and so are the sorted keys.
    assert(keys.no_duplicates()) by {
        assert forall|a: int, b: int| 0 <= a < keys.len() && 0 <= b < keys.len() && a != b implies keys[a] != keys[b] by {
            assert(keys[a].1 as int == a);
            assert(keys[b].1 as int == b);
        }
    }
    keys.lemma_multiset_has_no_duplicates();
    sorted.lemma_multiset_has_no_duplicates_conv();
    assert forall|q: int| 0 <= q < sorted.len() implies #[trigger] keys[sorted[q].1 as int]
        == sorted[q] && (sorted[q].1 as int) < n by {
        assert(sorted.contains(sorted[q]));
        assert(keys.contains(sorted[q]));
        let j = choose|j: int| 0 <= j < keys.len() && keys[j] == sorted[q];
        assert(keys[j].1 as int == j);
    }
    // The position of the slow sample's key.
    assert(keys.to_multiset().count(ki) > 0) by {
        assert(keys.contains(ki));
    }
    assert(sorted.contains(ki));
    let p = choose|p: int| 0 <= p < sorted.len() && sorted[p] == ki;
    // Replacing its key in place keeps the sequence sorted.
    let sorted2 = sorted.update(p, ki2);
    assert(vstd::relations::sorted_by(sorted2, clock::rank_order())) by {
        assert forall|a: int, b: int| 0 <= a < b < sorted2.len() implies #[trigger] clock::rank_order()(
            sorted2[a],
            sorted2[b],
        ) by {
            assert(clock::rank_order()(sorted[a], sorted[b]));
            if a == p {
                assert(keys[sorted[b].1 as int] == sorted[b]);
                assert(sorted[b] != ki);
                assert(sorted[b].1 as int != i);
            } else if b == p {
                assert(keys[sorted[a].1 as int] == sorted[a]);
                assert(sorted[a] != ki);
                assert(sorted[a].1 as int != i);
            }
        }
    }
    // ... and it holds the keys of the changed window.
    assert(sorted2.to_multiset() == keys2.to_multiset()) by {
        assert(sorted2 =~= sorted.remove(p).insert(p, ki2));
        assert(keys.update(i, ki2) =~= keys.remove(i).insert(i, ki2));
        vstd::seq_lib::to_multiset_remove(sorted, p);
        vstd::seq_lib::to_multiset_remove(keys, i);
        vstd::seq_lib::to_multiset_insert(sorted.remove(p), p, ki2);
        vstd::seq_lib::to_multiset_insert(keys.remove(i), i, ki2);
    }
    keys2.lemma_sort_by_ensures(clock::rank_order());
    vstd::seq_lib::lemma_sorted_unique(
        sorted2,
        keys2.sort_by(clock::rank_order()),
        clock::rank_order(),
    );
    // At least `k` keys rank before the slow sample's key, so it lies beyond the reliable half.
    assert(p >= k) by {
        let fast = key_faster_than(r);
        lemma_rank_keys_faster(w, r);
        lemma_permutation_filter_len(keys, sorted, fast);
        assert(sorted =~= sorted.take(p) + sorted.skip(p));
        assert(sorted.skip(p).filter(fast).len() == 0) by {
            if sorted.skip(p).filter(fast).len() > 0 {
                sorted.skip(p).lemma_filter_pred(fast, 0);
                let e = sorted.skip(p).filter(fast)[0];
                assert(sorted.skip(p).filter(fast).contains(e));
                sorted.skip(p).lemma_filter_contains_rev(fast, e);
                let q = choose|q: int| 0 <= q < sorted.skip(p).len() && sorted.skip(p)[q] == e;
                assert(q == 0 || clock::rank_order()(sorted[p], sorted[p + q]));
            }
        }
        sorted.take(p).lemma_filter_len(fast);
    }
    assert(clock::best_offsets(w2) =~= clock::best_offsets(w));
}

// ----------------------------------------------------------------------------
// Laws over sequences of calls
// ----------------------------------------------------------------------------

/// One call that changes a `ClockSync`: an exchange handed to `process_pong`, or `reset`.
pub enum ClockEvent {
    Pong { send_time_ms: u64, remote_time_ms: u64, recv_time_ms: u64 },
    Reset,
}

/// The exchange `(send, remote, recv)` as a call of `process_pong`.
pub open spec fn pong_event(exchange: (u64, u64, u64)) -> ClockEvent {
    ClockEvent::Pong { send_time_ms: exchange.0, remote_time_ms: exchange.1, recv_time_ms: exchange.2 }
}

/// The exchanges as calls of `process_pong`, in order.
pub open spec fn pong_events(exchanges: Seq<(u64, u64, u64)>) -> Seq<ClockEvent> {
    Seq::new(exchanges.len(), |j: int| pong_event(exchanges[j]))
}

/// What a call promises of the state it leaves, by the contracts of `process_pong` and
/// `reset`.
pub open spec fn call_effect(before: ClockSync, after: ClockSync, event: ClockEvent) -> bool {
    &&& after.capacity() == before.capacity()
    &&& match event {
        ClockEvent::Pong { send_time_ms, remote_time_ms, recv_time_ms } => {
            &&& after.window() == clock::admit_sample(
                before.window(),
                clock::pong_sample(send_time_ms, remote_time_ms, recv_time_ms),
                before.capacity(),
            )
            &&& clock::widen(after.offset()) == clock::window_estimate(after.window())
            &&& after.offset() is Some
        },
        ClockEvent::Reset => {
            &&& after.window() == Seq::<ClockSample>::empty()
            &&& after.offset() is None
        },
    }
}

/// `states[j + 1]` is what the call `events[j]` made of `states[j]`, for every `j`.
pub open spec fn is_history(states: Seq<ClockSync>, events: Seq<ClockEvent>) -> bool {
    &&& states.len() == events.len() + 1
    &&& forall|j: int| 0 <= j < events.len() ==> #[trigger] call_effect(states[j], states[j + 1], events[j])
}

/// A state as `ClockSync::new` and `ClockSync::default` make it.
pub open spec fn is_fresh(sync: ClockSync) -> bool {
    &&& sync.window() == Seq::<ClockSample>::empty()
    &&& sync.offset() is None
    &&& sync.capacity() == MAX_SAMPLES
}

/// The samples of the last `capacity` exchanges (all of them when there are fewer), oldest
/// first.
pub open spec fn recent_samples(exchanges: Seq<(u64, u64, u64)>, capacity: nat) -> Seq<ClockSample> {
    let start: int = if exchanges.len() > capacity {
        exchanges.len() - capacity
    } else {
        0
    };
    Seq::new(
        (exchanges.len() - start) as nat,
        |j: int|
            clock::pong_sample(exchanges[start + j].0, exchanges[start + j].1, exchanges[start + j].2),
    )
}

/// A `ClockSync` has an offset exactly when some exchange was processed after its creation
/// and after its last reset.
pub proof fn lemma_offset_iff_exchange_since_reset(states: Seq<ClockSync>, events: Seq<ClockEvent>)
    requires
        is_history(states, events),
        is_fresh(states[0]),
    ensures
        states.last().offset() is Some <==> exists|j: int|
            0 <= j < events.len() && (#[trigger] events[j]) is Pong && forall|l: int|
                j < l < events.len() ==> !(#[trigger] events[l] is Reset),
{
    let n = events.len() as int;
    if n > 0 {
        assert(call_effect(states[n - 1], states[(n - 1) + 1], events[n - 1]));
        if events[n - 1] is Pong {
            assert(events[n - 1] is Pong && forall|l: int| n - 1 < l < n ==> !(#[trigger] events[l] is Reset));
        } else {
            assert forall|j: int| 0 <= j < n && (#[trigger] events[j]) is Pong implies !(forall|l: int|
                j < l < n ==> !(#[trigger] events[l] is Reset)) by {
                assert(j < n - 1);
                assert(events[n - 1] is Reset);
            }
        }
    }
}

/// Starting fresh and processing exchanges, a `ClockSync` holds the samples of the last
/// `MAX_SAMPLES` exchanges (of all of them when there are fewer), oldest first.
pub proof fn lemma_window_holds_recent_exchanges(
    states: Seq<ClockSync>,
    exchanges: Seq<(u64, u64, u64)>,
)
    requires
        is_history(states, pong_events(exchanges)),
        is_fresh(states[0]),
    ensures
        states.last().window() == recent_samples(exchanges, MAX_SAMPLES as nat),
        states.last().capacity() == MAX_SAMPLES,
    decreases exchanges.len(),
{
    let n = exchanges.len() as int;
    let events = pong_events(exchanges);
    if n == 0 {
        assert(recent_samples(exchanges, MAX_SAMPLES as nat) =~= Seq::<ClockSample>::empty());
    } else {
        let prefix = exchanges.take(n - 1);
        let prefix_states = states.take(n);
        let prefix_events = pong_events(prefix);
        assert(prefix_events =~= events.take(n - 1));
        assert forall|j: int| 0 <= j < prefix_events.len() implies #[trigger] call_effect(
            prefix_states[j],
            prefix_states[j + 1],
            prefix_events[j],
        ) by {
            assert(call_effect(states[j], states[j + 1], events[j]));
        }
        lemma_window_holds_recent_exchanges(prefix_states, prefix);
        assert(call_effect(states[n - 1], states[(n - 1) + 1], events[n - 1]));
        let e = exchanges[n - 1];
        let before = recent_samples(prefix, MAX_SAMPLES as nat);
        assert(states[n - 1].window() == before);
        assert(clock::admit_sample(before, clock::pong_sample(e.0, e.1, e.2), MAX_SAMPLES as nat)
            =~= recent_samples(exchanges, MAX_SAMPLES as nat));
    }
}

/// Only the last `MAX_SAMPLES` exchanges count: a `ClockSync` fed a run of at least that
/// many exchanges ends with the same offset as one fed only the last `MAX_SAMPLES` of them.
pub proof fn lemma_only_recent_exchanges_count(
    all_states: Seq<ClockSync>,
    recent_states: Seq<ClockSync>,
    exchanges: Seq<(u64, u64, u64)>,
)
    requires
        exchanges.len() >= MAX_SAMPLES,
        is_history(all_states, pong_events(exchanges)),
        is_fresh(all_states[0]),
        is_history(
            recent_states,
            pong_events(exchanges.subrange(exchanges.len() - MAX_SAMPLES, exchanges.len() as int)),
        ),
        is_fresh(recent_states[0]),
    ensures
        all_states.last().window() == recent_states.last().window(),
        all_states.last().offset() == recent_states.last().offset(),
{
    let n = exchanges.len() as int;
    let recent = exchanges.subrange(n - MAX_SAMPLES, n);
    lemma_window_holds_recent_exchanges(all_states, exchanges);
    lemma_window_holds_recent_exchanges(recent_states, recent);
    assert(recent_samples(exchanges, MAX_SAMPLES as nat) =~= recent_samples(recent, MAX_SAMPLES as nat));
    let events = pong_events(exchanges);
    let recent_events = pong_events(recent);
    assert(call_effect(all_states[n - 1], all_states[(n - 1) + 1], events[n - 1]));
    assert(call_effect(
        recent_states[MAX_SAMPLES - 1],
        recent_states[MAX_SAMPLES as int],
        recent_events[MAX_SAMPLES - 1],
    ));
}

} // verus!
