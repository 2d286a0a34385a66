use vstd::prelude::*;

verus! {

/// What a key handler knows: the chord that activates it, the keys held
/// down right now (in the order they went down), and whether the chord has
/// been completed since the handler was last reset.
pub struct ChordState {
    pub chord: Seq<u32>,
    pub held: Seq<u32>,
    pub armed: bool,
}

/// Every key of `chord` is held.
pub open spec fn chord_complete(chord: Seq<u32>, held: Seq<u32>) -> bool {
    forall|i: int| 0 <= i < chord.len() ==> held.contains(#[trigger] chord[i])
}

/// `held` after `key` went down: keys held already are not recorded twice.
pub open spec fn held_after_press(held: Seq<u32>, key: u32) -> Seq<u32> {
    if held.contains(key) {
        held
    } else {
        held.push(key)
    }
}

/// `held` after `key` came up.
pub open spec fn held_after_release(held: Seq<u32>, key: u32) -> Seq<u32> {
    held.filter(other_than(key))
}

/// The keys other than `key`.
pub open spec fn other_than(key: u32) -> spec_fn(u32) -> bool {
    |k: u32| k != key
}

/// A press as the low-level keyboard hook sees it: a key that is held
/// already changes nothing; a new key is recorded and arms the handler if
/// the chord is now complete.
pub open spec fn hook_key_down(s: ChordState, key: u32) -> ChordState {
    if s.held.contains(key) {
        s
    } else {
        let held = s.held.push(key);
        ChordState { chord: s.chord, held, armed: s.armed || chord_complete(s.chord, held) }
    }
}

/// A release as the low-level keyboard hook sees it; the flag says whether
/// the main thread is to be told (the last key came up on an armed chord).
pub open spec fn hook_key_up(s: ChordState, key: u32) -> (ChordState, bool) {
    let held = held_after_release(s.held, key);
    (ChordState { chord: s.chord, held, armed: s.armed }, held.len() == 0 && s.armed)
}

/// A press as an input device reports it: the key is recorded unless held,
/// and the handler arms when the chord is complete.
pub open spec fn device_press(s: ChordState, key: u32) -> ChordState {
    let held = held_after_press(s.held, key);
    ChordState { chord: s.chord, held, armed: s.armed || chord_complete(s.chord, held) }
}

/// A release as an input device reports it: when the last key comes up on
/// an armed chord, the handler disarms and the flag says it fired.
pub open spec fn device_release(s: ChordState, key: u32) -> (ChordState, bool) {
    let held = held_after_release(s.held, key);
    let fire = held.len() == 0 && s.armed;
    (ChordState { chord: s.chord, held, armed: s.armed && !fire }, fire)
}

/// An input-device key event: value `0` is a release, `1` a press, and any
/// other value (auto-repeat) changes nothing.
pub open spec fn device_event(s: ChordState, key: u32, value: i32) -> (ChordState, bool) {
    if value == 0 {
        device_release(s, key)
    } else if value == 1 {
        (device_press(s, key), false)
    } else {
        (s, false)
    }
}

/// Reading the armed flag clears it.
pub open spec fn taken(s: ChordState) -> (ChordState, bool) {
    (ChordState { chord: s.chord, held: s.held, armed: false }, s.armed)
}

/// Whether a completed chord has armed the handler.
pub open spec fn armed_when_complete(s: ChordState) -> bool {
    chord_complete(s.chord, s.held) ==> s.armed
}

/// Whether a completed chord that is still held has armed the handler (so
/// of a new handler, which holds no key).
pub open spec fn armed_while_held(s: ChordState) -> bool {
    chord_complete(s.chord, s.held) && s.held.len() > 0 ==> s.armed
}

/// The state after the device reports presses of `keys`, in order.
pub open spec fn device_presses(s: ChordState, keys: Seq<u32>) -> ChordState
    decreases keys.len(),
{
    if keys.len() == 0 {
        s
    } else {
        device_press(device_presses(s, keys.drop_last()), keys.last())
    }
}

proof fn lemma_filter_keeps_distinct(s: Seq<u32>, p: spec_fn(u32) -> bool)
    requires
        s.no_duplicates(),
    ensures
        s.filter(p).no_duplicates(),
    decreases s.len(),
{
    reveal(Seq::filter);
    if s.len() > 0 {
        let rest = s.drop_last();
        lemma_filter_keeps_distinct(rest, p);
        if p(s.last()) && rest.filter(p).contains(s.last()) {
            rest.lemma_filter_contains_rev(p, s.last());
            let j = choose|j: int| 0 <= j < rest.len() && rest[j] == s.last();
            assert(s[j] == s[s.len() - 1]);
        }
    }
}

proof fn lemma_filter_within(s: Seq<u32>, p: spec_fn(u32) -> bool, x: u32)
    requires
        s.filter(p).contains(x),
    ensures
        s.contains(x),
{
    s.lemma_filter_contains_rev(p, x);
}

/// Law: no key is ever recorded as held twice, whatever the hook or the
/// device reports.
pub proof fn lemma_held_keys_distinct(s: ChordState, key: u32, value: i32)
    requires
        s.held.no_duplicates(),
    ensures
        hook_key_down(s, key).held.no_duplicates(),
        hook_key_up(s, key).0.held.no_duplicates(),
        device_event(s, key, value).0.held.no_duplicates(),
{
    lemma_filter_keeps_distinct(s.held, other_than(key));
}

/// Law: a release forgets exactly the key that came up: afterwards that key
/// is not held, every other key held before still is, and no key is added.
/// So it is for the keyboard hook and for an input device alike.
pub proof fn lemma_release_forgets_only_that_key(s: ChordState, key: u32, other: u32)
    ensures
        !held_after_release(s.held, key).contains(key),
        held_after_release(s.held, key).contains(other) <==> (s.held.contains(other) && other != key),
        hook_key_up(s, key).0.held == held_after_release(s.held, key),
        device_event(s, key, 0).0.held == held_after_release(s.held, key),
{
    let p = other_than(key);
    let after = s.held.filter(p);
    if after.contains(key) {
        let i = choose|i: int| 0 <= i < after.len() && after[i] == key;
        s.held.lemma_filter_pred(p, i);
    }
    if after.contains(other) {
        let i = choose|i: int| 0 <= i < after.len() && after[i] == other;
        s.held.lemma_filter_pred(p, i);
        s.held.lemma_filter_contains_rev(p, other);
    }
    if s.held.contains(other) && other != key {
        let i = choose|i: int| 0 <= i < s.held.len() && s.held[i] == other;
        s.held.lemma_filter_contains(p, i);
    }
}

/// Law: once the chord is complete the handler is armed, and presses and
/// releases keep it so (as long as the flag is not read): a handler never
/// misses a completed chord.
pub proof fn lemma_complete_chord_arms(s: ChordState, key: u32, value: i32)
    requires
        armed_when_complete(s),
        s.chord.len() > 0,
    ensures
        armed_when_complete(hook_key_down(s, key)),
        armed_when_complete(hook_key_up(s, key).0),
        armed_when_complete(device_event(s, key, value).0),
{
    let held = held_after_release(s.held, key);
    if chord_complete(s.chord, held) {
        assert forall|i: int| 0 <= i < s.chord.len() implies s.held.contains(#[trigger] s.chord[i]) by {
            lemma_filter_within(s.held, other_than(key), s.chord[i]);
        }
        assert(held.contains(s.chord[0]));
    }
}

/// Law: the two ways keys are reported agree. On a handler that is armed
/// whenever its chord is complete, a press seen by the keyboard hook and a
/// press reported by an input device lead to the same state.
pub proof fn lemma_press_reports_agree(s: ChordState, key: u32)
    requires
        armed_when_complete(s),
    ensures
        hook_key_down(s, key) == device_press(s, key),
{
}

/// Law: pressing, in any order and with any other keys in between, every
/// key of the chord arms the handler.
pub proof fn lemma_pressing_chord_arms(s: ChordState, keys: Seq<u32>)
    requires
        armed_when_complete(s),
        forall|i: int| 0 <= i < s.chord.len() ==> keys.contains(#[trigger] s.chord[i]),
    ensures
        device_presses(s, keys).armed,
{
    lemma_presses_hold(s, keys);
    let t = device_presses(s, keys);
    assert forall|i: int| 0 <= i < s.chord.len() implies t.held.contains(#[trigger] s.chord[i]) by {
        let j = choose|j: int| 0 <= j < keys.len() && keys[j] == s.chord[i];
        assert(keys.contains(keys[j]));
    }
}

proof fn lemma_presses_hold(s: ChordState, keys: Seq<u32>)
    requires
        armed_when_complete(s),
    ensures
        device_presses(s, keys).chord == s.chord,
        armed_when_complete(device_presses(s, keys)),
        forall|j: int| 0 <= j < keys.len() ==> device_presses(s, keys).held.contains(#[trigger] keys[j]),
    decreases keys.len(),
{
    if keys.len() > 0 {
        let rest = keys.drop_last();
        lemma_presses_hold(s, rest);
        let before = device_presses(s, rest);
        let after = device_presses(s, keys);
        assert forall|j: int| 0 <= j < keys.len() implies after.held.contains(#[trigger] keys[j]) by {
            if j < keys.len() - 1 {
                assert(before.held.contains(rest[j]));
                let k = choose|k: int| 0 <= k < before.held.len() && before.held[k] == rest[j];
                if !before.held.contains(keys.last()) {
                    assert(after.held[k] == before.held[k]);
                }
            } else {
                if !before.held.contains(keys.last()) {
                    assert(after.held[after.held.len() - 1] == keys.last());
                }
            }
        }
    }
}

/// Law: reading the flag twice in a row yields `false` the second time.
pub proof fn lemma_flag_read_once(s: ChordState)
    ensures
        taken(taken(s).0).1 == false,
{
}

/// Law: a chord fires only when its last held key comes up, and fires once:
/// a further release does not fire again until the chord is completed anew.
pub proof fn lemma_release_fires_once(s: ChordState, key: u32, other: u32)
    ensures
        device_release(s, key).1 ==> device_release(s, key).0.held.len() == 0,
        device_release(s, key).1 ==> !device_release(device_release(s, key).0, other).1,
{
}

/// The states a handler goes through on a stream of input-device key
/// events `(key, value)`: the start state, then the state after each event.
pub open spec fn trace(s: ChordState, events: Seq<(u32, i32)>) -> Seq<ChordState>
    decreases events.len(),
{
    if events.len() == 0 {
        seq![s]
    } else {
        let before = trace(s, events.drop_last());
        before.push(device_event(before.last(), events.last().0, events.last().1).0)
    }
}

/// Whether the chord fires on event `i` of the stream.
pub open spec fn fires_at(s: ChordState, events: Seq<(u32, i32)>, i: int) -> bool {
    device_event(trace(s, events)[i], events[i].0, events[i].1).1
}

/// Whether the chord fires, event by event.
pub open spec fn firings(s: ChordState, events: Seq<(u32, i32)>) -> Seq<bool> {
    Seq::new(events.len(), |i: int| fires_at(s, events, i))
}

/// An event that is neither a press nor a release (such as auto-repeat).
pub open spec fn ignored(e: (u32, i32)) -> bool {
    e.1 != 0 && e.1 != 1
}

/// Each state of the trace follows from the one before by one event.
pub proof fn lemma_trace_step(s: ChordState, events: Seq<(u32, i32)>)
    ensures
        trace(s, events).len() == events.len() + 1,
        trace(s, events)[0] == s,
        forall|i: int|
            0 <= i < events.len() ==> #[trigger] trace(s, events)[i + 1] == device_event(
                trace(s, events)[i],
                events[i].0,
                events[i].1,
            ).0,
    decreases events.len(),
{
    if events.len() > 0 {
        let rest = events.drop_last();
        lemma_trace_step(s, rest);
        let t = trace(s, events);
        let b = trace(s, rest);
        assert forall|i: int| 0 <= i < events.len() implies #[trigger] t[i + 1] == device_event(
            t[i],
            events[i].0,
            events[i].1,
        ).0 by {
            if i < events.len() - 1 {
                assert(t[i + 1] == b[i + 1]);
                assert(t[i] == b[i]);
                assert(events[i] == rest[i]);
            }
        }
    }
}

proof fn lemma_trace_next(s: ChordState, events: Seq<(u32, i32)>, k: int)
    requires
        1 <= k <= events.len(),
    ensures
        trace(s, events)[k] == device_event(trace(s, events)[k - 1], events[k - 1].0, events[k - 1].1).0,
{
    lemma_trace_step(s, events);
    let i = k - 1;
    assert(trace(s, events)[i + 1] == device_event(trace(s, events)[i], events[i].0, events[i].1).0);
}

/// Law: every firing happens on a release that leaves no key held, and
/// since the previous firing (or the start) the whole chord was held at
/// some point: a handler that starts disarmed only fires for a chord that
/// was completed and then fully released.
pub proof fn lemma_fires_only_after_chord(s: ChordState, events: Seq<(u32, i32)>, i: int)
    requires
        !s.armed,
        0 <= i < events.len(),
        fires_at(s, events, i),
    ensures
        events[i].1 == 0,
        trace(s, events)[i + 1].held.len() == 0,
        exists|j: int|
            0 <= j <= i && chord_complete(trace(s, events)[j].chord, trace(s, events)[j].held)
                && forall|k: int| j <= k < i ==> !#[trigger] fires_at(s, events, k),
{
    lemma_trace_step(s, events);
    lemma_armed_since_complete(s, events, i);
}

/// Whether key `k` went down at some event before event `j` of the stream
/// and has not come up since.
pub open spec fn down_before(events: Seq<(u32, i32)>, k: u32, j: int) -> bool {
    exists|m: int|
        0 <= m < j && #[trigger] events[m] == (k, 1i32) && forall|q: int|
            m < q < j ==> #[trigger] events[q] != (k, 0i32)
}

/// Whether every key of `chord` went down before event `j` and has not come
/// up since.
pub open spec fn chord_down_before(chord: Seq<u32>, events: Seq<(u32, i32)>, j: int) -> bool {
    forall|c: int| 0 <= c < chord.len() ==> down_before(events, #[trigger] chord[c], j)
}

/// Law: starting with no key held, a key is held after the first `j` events
/// exactly when it went down before and has not come up since.
pub proof fn lemma_held_keys_are_those_down(s: ChordState, events: Seq<(u32, i32)>, j: int, k: u32)
    requires
        s.held.len() == 0,
        0 <= j <= events.len(),
    ensures
        trace(s, events)[j].held.contains(k) <==> down_before(events, k, j),
    decreases j,
{
    lemma_trace_step(s, events);
    let t = trace(s, events);
    if j == 0 {
        assert(!t[0].held.contains(k));
    } else {
        lemma_held_keys_are_those_down(s, events, j - 1, k);
        lemma_trace_next(s, events, j);
        let e = events[j - 1];
        let before = t[j - 1];
        lemma_release_forgets_only_that_key(before, e.0, k);
        if e == (k, 1i32) {
            assert(held_after_press(before.held, k).contains(k)) by {
                if !before.held.contains(k) {
                    assert(before.held.push(k)[before.held.len() as int] == k);
                }
            }
            assert(forall|q: int| j - 1 < q < j ==> #[trigger] events[q] != (k, 0i32));
            assert(down_before(events, k, j));
        } else if e == (k, 0i32) {
            if down_before(events, k, j) {
                let m = choose|m: int|
                    0 <= m < j && #[trigger] events[m] == (k, 1i32) && forall|q: int|
                        m < q < j ==> #[trigger] events[q] != (k, 0i32);
                assert(events[j - 1] != (k, 0i32));
            }
        } else {
            if e.1 == 1 {
                assert(held_after_press(before.held, e.0).contains(k) <==> before.held.contains(k)) by {
                    if !before.held.contains(e.0) {
                        let h = before.held;
                        if h.push(e.0).contains(k) {
                            let i = choose|i: int| 0 <= i < h.push(e.0).len() && h.push(e.0)[i] == k;
                            if i < h.len() {
                                assert(h[i] == k);
                            }
                        }
                        if h.contains(k) {
                            let i = choose|i: int| 0 <= i < h.len() && h[i] == k;
                            assert(h.push(e.0)[i] == k);
                        }
                    }
                }
            }
            if down_before(events, k, j) {
                let m = choose|m: int|
                    0 <= m < j && #[trigger] events[m] == (k, 1i32) && forall|q: int|
                        m < q < j ==> #[trigger] events[q] != (k, 0i32);
                assert(m < j - 1);
                assert(forall|q: int| m < q < j - 1 ==> #[trigger] events[q] != (k, 0i32));
                assert(down_before(events, k, j - 1));
            }
            if down_before(events, k, j - 1) {
                let m = choose|m: int|
                    0 <= m < j - 1 && #[trigger] events[m] == (k, 1i32) && forall|q: int|
                        m < q < j - 1 ==> #[trigger] events[q] != (k, 0i32);
                assert(forall|q: int| m < q < j ==> #[trigger] events[q] != (k, 0i32));
                assert(down_before(events, k, j));
            }
        }
    }
}

/// Law: starting with no key held and disarmed, the chord fires only on a
/// release that leaves no key held, and only if at some point since the
/// previous firing (or the start) every key of the chord had gone down and
/// not yet come up.
pub proof fn lemma_fires_only_after_chord_held(s: ChordState, events: Seq<(u32, i32)>, i: int)
    requires
        !s.armed,
        s.held.len() == 0,
        0 <= i < events.len(),
        fires_at(s, events, i),
    ensures
        events[i].1 == 0,
        trace(s, events)[i + 1].held.len() == 0,
        exists|j: int|
            0 <= j <= i && #[trigger] chord_down_before(s.chord, events, j) && forall|k: int|
                j <= k < i ==> !#[trigger] fires_at(s, events, k),
{
    lemma_fires_only_after_chord(s, events, i);
    let t = trace(s, events);
    let j = choose|j: int|
        0 <= j <= i && chord_complete(t[j].chord, t[j].held)
            && forall|k: int| j <= k < i ==> !#[trigger] fires_at(s, events, k);
    lemma_trace_chord(s, events, j);
    assert forall|c: int| 0 <= c < s.chord.len() implies down_before(events, #[trigger] s.chord[c], j) by {
        lemma_held_keys_are_those_down(s, events, j, s.chord[c]);
    }
    assert(chord_down_before(s.chord, events, j));
}

/// Whether, since state `j`, the chord has not fired up to state `k`.
pub open spec fn quiet_between(s: ChordState, events: Seq<(u32, i32)>, j: int, k: int) -> bool {
    forall|m: int| j <= m < k ==> !#[trigger] fires_at(s, events, m)
}

proof fn lemma_armed_since_complete(s: ChordState, events: Seq<(u32, i32)>, k: int)
    requires
        !s.armed,
        0 <= k <= events.len(),
    ensures
        trace(s, events)[k].armed ==> exists|j: int|
            0 <= j <= k && chord_complete(trace(s, events)[j].chord, trace(s, events)[j].held)
                && quiet_between(s, events, j, k),
    decreases k,
{
    lemma_trace_step(s, events);
    let t = trace(s, events);
    if k > 0 && t[k].armed {
        lemma_armed_since_complete(s, events, k - 1);
        lemma_trace_next(s, events, k);
        assert(t[k].chord == s.chord) by {
            lemma_trace_chord(s, events, k);
        }
        assert(t[k - 1].chord == s.chord) by {
            lemma_trace_chord(s, events, k - 1);
        }
        if t[k - 1].armed && !fires_at(s, events, k - 1) {
            let j = choose|j: int|
                0 <= j <= k - 1 && chord_complete(t[j].chord, t[j].held) && quiet_between(
                    s,
                    events,
                    j,
                    k - 1,
                );
            assert(quiet_between(s, events, j, k));
        } else {
            assert(chord_complete(t[k].chord, t[k].held));
            assert(quiet_between(s, events, k, k));
        }
    }
}

proof fn lemma_trace_chord(s: ChordState, events: Seq<(u32, i32)>, k: int)
    requires
        0 <= k <= events.len(),
    ensures
        trace(s, events)[k].chord == s.chord,
    decreases k,
{
    lemma_trace_step(s, events);
    if k > 0 {
        lemma_trace_chord(s, events, k - 1);
        lemma_trace_next(s, events, k);
    }
}

/// Law: a completed chord fires exactly once when its keys are let go. If
/// at state `j` the whole chord is held, and event `k` is the first after
/// it to leave no key held, the chord fires on event `k` and on no event in
/// between.
pub proof fn lemma_chord_fires_once_on_release(
    s: ChordState,
    events: Seq<(u32, i32)>,
    j: int,
    k: int,
)
    requires
        armed_while_held(s),
        0 <= j <= k < events.len(),
        chord_complete(trace(s, events)[j].chord, trace(s, events)[j].held),
        forall|m: int| j <= m <= k ==> (#[trigger] trace(s, events)[m]).held.len() > 0,
        trace(s, events)[k + 1].held.len() == 0,
    ensures
        fires_at(s, events, k),
        forall|m: int| j <= m < k ==> !#[trigger] fires_at(s, events, m),
{
    lemma_trace_step(s, events);
    lemma_stays_armed(s, events, j, k);
    let t = trace(s, events);
    let e = events[k];
    assert(t[k + 1] == device_event(t[k], e.0, e.1).0);
    if e.1 == 1 {
        if !t[k].held.contains(e.0) {
            assert(t[k + 1].held.len() == t[k].held.len() + 1);
        }
    }
}

proof fn lemma_event_keeps_arming(s: ChordState, key: u32, value: i32)
    requires
        armed_while_held(s),
    ensures
        armed_while_held(device_event(s, key, value).0),
{
    let held = held_after_release(s.held, key);
    if value == 0 && chord_complete(s.chord, held) && held.len() > 0 {
        assert forall|i: int| 0 <= i < s.chord.len() implies s.held.contains(#[trigger] s.chord[i]) by {
            lemma_filter_within(s.held, other_than(key), s.chord[i]);
        }
        s.held.lemma_filter_len(other_than(key));
    }
}

proof fn lemma_trace_keeps_arming(s: ChordState, events: Seq<(u32, i32)>, k: int)
    requires
        armed_while_held(s),
        0 <= k <= events.len(),
    ensures
        armed_while_held(trace(s, events)[k]),
    decreases k,
{
    lemma_trace_step(s, events);
    if k > 0 {
        lemma_trace_keeps_arming(s, events, k - 1);
        let t = trace(s, events);
        lemma_trace_next(s, events, k);
        lemma_event_keeps_arming(t[k - 1], events[k - 1].0, events[k - 1].1);
    }
}

proof fn lemma_stays_armed(s: ChordState, events: Seq<(u32, i32)>, j: int, k: int)
    requires
        armed_while_held(s),
        0 <= j <= k < events.len(),
        chord_complete(trace(s, events)[j].chord, trace(s, events)[j].held),
        forall|m: int| j <= m <= k ==> (#[trigger] trace(s, events)[m]).held.len() > 0,
    ensures
        trace(s, events)[k].armed,
        forall|m: int| j <= m < k ==> !#[trigger] fires_at(s, events, m),
    decreases k - j,
{
    lemma_trace_step(s, events);
    lemma_trace_keeps_arming(s, events, j);
    let t = trace(s, events);
    if k > j {
        lemma_stays_armed(s, events, j, k - 1);
        lemma_trace_next(s, events, k);
        assert(t[k].held.len() > 0);
        assert(!fires_at(s, events, k - 1));
    }
}

/// Law: events that are neither presses nor releases change nothing. With
/// such an event inserted anywhere in a stream, the handler ends in the same
/// state and fires on the same events (and not on the inserted one).
pub proof fn lemma_ignored_event_changes_nothing(
    s: ChordState,
    events: Seq<(u32, i32)>,
    p: int,
    e: (u32, i32),
)
    requires
        ignored(e),
        0 <= p <= events.len(),
    ensures
        trace(s, events.insert(p, e)).last() == trace(s, events).last(),
        firings(s, events.insert(p, e)) == firings(s, events).insert(p, false),
{
    let more = events.insert(p, e);
    lemma_trace_step(s, events);
    lemma_trace_step(s, more);
    lemma_trace_with_ignored(s, events, p, e, events.len() as int);
    let f1 = firings(s, more);
    let f0 = firings(s, events).insert(p, false);
    assert forall|i: int| 0 <= i < f1.len() implies f1[i] == f0[i] by {
        if i < p {
            lemma_trace_with_ignored(s, events, p, e, i);
            assert(more[i] == events[i]);
        } else if i == p {
            lemma_trace_with_ignored(s, events, p, e, i);
        } else {
            lemma_trace_with_ignored(s, events, p, e, i - 1);
            assert(more[i] == events[i - 1]);
        }
    }
    assert(f1 =~= f0);
}

proof fn lemma_trace_with_ignored(s: ChordState, events: Seq<(u32, i32)>, p: int, e: (u32, i32), i: int)
    requires
        ignored(e),
        0 <= p <= events.len(),
        0 <= i <= events.len(),
    ensures
        i <= p ==> trace(s, events.insert(p, e))[i] == trace(s, events)[i],
        i >= p ==> trace(s, events.insert(p, e))[i + 1] == trace(s, events)[i],
    decreases i,
{
    let more = events.insert(p, e);
    let t = trace(s, events);
    let u = trace(s, more);
    lemma_trace_step(s, events);
    lemma_trace_step(s, more);
    if i == 0 {
        if p == 0 {
            lemma_trace_next(s, more, 1);
            assert(more[0] == e);
        }
    } else {
        lemma_trace_with_ignored(s, events, p, e, i - 1);
        lemma_trace_next(s, events, i);
        if i <= p {
            lemma_trace_next(s, more, i);
            assert(more[i - 1] == events[i - 1]);
            if i == p {
                lemma_trace_next(s, more, i + 1);
                assert(more[i] == e);
            }
        } else {
            lemma_trace_next(s, more, i + 1);
            assert(more[i] == events[i - 1]);
        }
    }
}

/// Detects a key chord (such as both control keys) being pressed and then
/// fully released.
pub struct KeyHandler {
    keycodes: Vec<u32>,
    down: Vec<u32>,
    active: bool,
}

impl View for KeyHandler {
    type V = ChordState;

    closed spec fn view(&self) -> ChordState {
        ChordState { chord: self.keycodes@, held: self.down@, armed: self.active }
    }
}

fn holds(keys: &Vec<u32>, key: u32) -> (r: bool)
    ensures
        r == keys@.contains(key),
{
    let mut i: usize = 0;
    while i < keys.len()
        invariant
            i <= keys.len(),
            forall|j: int| 0 <= j < i ==> keys@[j] != key,
        decreases keys.len() - i,
    {
        if keys[i] == key {
            return true;
        }
        i += 1;
    }
    false
}

fn all_held(chord: &Vec<u32>, held: &Vec<u32>) -> (r: bool)
    ensures
        r == chord_complete(chord@, held@),
{
    let mut i: usize = 0;
    while i < chord.len()
        invariant
            i <= chord.len(),
            forall|j: int| 0 <= j < i ==> held@.contains(#[trigger] chord@[j]),
        decreases chord.len() - i,
    {
        if !holds(held, chord[i]) {
            return false;
        }
        i += 1;
    }
    true
}

fn without(held: &Vec<u32>, key: u32) -> (r: Vec<u32>)
    requires
        held@.no_duplicates(),
    ensures
        r@ == held_after_release(held@, key),
        r@.no_duplicates(),
{
    let mut r: Vec<u32> = Vec::new();
    let mut i: usize = 0;
    while i < held.len()
        invariant
            i <= held.len(),
            r@ == held@.take(i as int).filter(other_than(key)),
        decreases held.len() - i,
    {
        if held[i] != key {
            r.push(held[i]);
        }
        proof {
            let next = held@.take(i + 1);
            assert(next.drop_last() =~= held@.take(i as int));
            reveal(Seq::filter);
        }
        i += 1;
    }
    assert(held@.take(held.len() as int) =~= held@);
    proof {
        lemma_filter_keeps_distinct(held@, other_than(key));
    }
    r
}

fn with_key(held: &Vec<u32>, key: u32) -> (r: Vec<u32>)
    requires
        held@.no_duplicates(),
        !held@.contains(key),
    ensures
        r@ == held@.push(key),
        r@.no_duplicates(),
{
    let mut r: Vec<u32> = Vec::new();
    let mut i: usize = 0;
    while i < held.len()
        invariant
            i <= held.len(),
            r@ == held@.take(i as int),
        decreases held.len() - i,
    {
        r.push(held[i]);
        i += 1;
        assert(r@ =~= held@.take(i as int));
    }
    r.push(key);
    assert(r@ =~= held@.push(key));
    r
}

impl KeyHandler {
    /// No key is recorded as held twice.
    #[verifier::type_invariant]
    spec fn keys_distinct(&self) -> bool {
        self.down@.no_duplicates()
    }

    /// A handler for the chord `keycodes`, with no key held and not armed.
    pub fn new(keycodes: Vec<u32>) -> (h: KeyHandler)
        ensures
            h@ == (ChordState { chord: keycodes@, held: Seq::empty(), armed: false }),
            h@.held.no_duplicates(),
    {
        KeyHandler { keycodes, down: Vec::new(), active: false }
    }

    /// Returns whether the chord completed since the last call, and resets
    /// that flag.
    pub fn is_active(&mut self) -> (r: bool)
        ensures
            (final(self)@, r) == taken(old(self)@),
            final(self)@.held.no_duplicates(),
    {
        proof {
            use_type_invariant(&*self);
        }
        let last = self.active;
        self.active = false;
        last
    }

    /// A key went down, as reported by the low-level keyboard hook.
    pub fn key_down(&mut self, key: u32)
        ensures
            final(self)@ == hook_key_down(old(self)@, key),
            final(self)@.held.no_duplicates(),
    {
        proof {
            use_type_invariant(&*self);
        }
        if !holds(&self.down, key) {
            self.down = with_key(&self.down, key);
            let complete = all_held(&self.keycodes, &self.down);
            self.active = self.active || complete;
        }
    }

    /// A key came up, as reported by the low-level keyboard hook; returns
    /// whether the main thread is to be notified.
    pub fn key_up(&mut self, key: u32) -> (notify: bool)
        ensures
            (final(self)@, notify) == hook_key_up(old(self)@, key),
            final(self)@.held.no_duplicates(),
    {
        proof {
            use_type_invariant(&*self);
        }
        self.down = without(&self.down, key);
        self.down.len() == 0 && self.active
    }

    /// A key event from an input device (`value` 0: release, 1: press,
    /// other: repeat); returns whether the chord fired.
    pub fn handle_key_event(&mut self, key: u32, value: i32) -> (fired: bool)
        ensures
            (final(self)@, fired) == device_event(old(self)@, key, value),
            final(self)@.held.no_duplicates(),
    {
        proof {
            use_type_invariant(&*self);
        }
        if value == 0 {
            self.down = without(&self.down, key);
            if self.down.len() == 0 && self.active {
                self.active = false;
                true
            } else {
                false
            }
        } else if value == 1 {
            if !holds(&self.down, key) {
                self.down = with_key(&self.down, key);
            }
            let complete = all_held(&self.keycodes, &self.down);
            if complete && !self.active {
                self.active = true;
            }
            false
        } else {
            false
        }
    }
}

} // verus!
