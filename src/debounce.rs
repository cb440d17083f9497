use vstd::prelude::*;
use crate::event::KeyEvent;

verus! {

/// Rows of one half's key matrix.
pub const ROWS: usize = 4;

/// Columns of one half's key matrix.
pub const COLS: usize = 6;

/// Intersections of one half's key matrix.
pub const NUM_KEYS: usize = 24;

/// One scan of the matrix: `true` where the switch at `[row][col]` is closed.
pub type MatrixSnapshot = [[bool; COLS]; ROWS];

/// The raw sample of key `k`, keys being numbered in row-major order.
pub open spec fn sample_at(s: MatrixSnapshot, k: int) -> bool {
    s@[k / (COLS as int)]@[k % (COLS as int)]
}

/// The event that reports key `k` as having become `pressed`.
pub open spec fn key_event(k: int, pressed: bool) -> KeyEvent {
    let row = (k / (COLS as int)) as u8;
    let col = (k % (COLS as int)) as u8;
    if pressed {
        KeyEvent::Press(row, col)
    } else {
        KeyEvent::Release(row, col)
    }
}

/// One debounce step of a single key: the new accepted value, the new
/// streak, and whether the accepted value flipped.
pub open spec fn key_step(stable: bool, streak: u16, sample: bool, threshold: u16) -> (bool, u16, bool) {
    if sample == stable {
        (stable, 0, false)
    } else if streak + 1 >= threshold {
        (sample, 0, true)
    } else {
        (stable, (streak + 1) as u16, false)
    }
}

/// The events of keys `0..k` of one update, in row-major order.
pub open spec fn events_upto(
    stable: Seq<bool>,
    streak: Seq<u16>,
    s: MatrixSnapshot,
    threshold: u16,
    k: nat,
) -> Seq<KeyEvent>
    decreases k,
{
    if k == 0 {
        Seq::empty()
    } else {
        let i = k - 1;
        let prev = events_upto(stable, streak, s, threshold, i as nat);
        if key_step(stable[i], streak[i], sample_at(s, i), threshold).2 {
            prev.push(key_event(i, sample_at(s, i)))
        } else {
            prev
        }
    }
}

/// State of a key after `n` scans that all sampled `x`.
pub open spec fn key_after(stable: bool, streak: u16, x: bool, threshold: u16, n: nat) -> (bool, u16)
    decreases n,
{
    if n == 0 {
        (stable, streak)
    } else {
        let p = key_after(stable, streak, x, threshold, (n - 1) as nat);
        let s = key_step(p.0, p.1, x, threshold);
        (s.0, s.1)
    }
}

/// The accepted values that a key reports over `n` scans that all sampled
/// `x`, one entry per emitted event (`true` for a press).
pub open spec fn run_events(stable: bool, streak: u16, x: bool, threshold: u16, n: nat) -> Seq<bool>
    decreases n,
{
    if n == 0 {
        Seq::empty()
    } else {
        let p = key_after(stable, streak, x, threshold, (n - 1) as nat);
        let prev = run_events(stable, streak, x, threshold, (n - 1) as nat);
        if key_step(p.0, p.1, x, threshold).2 {
            prev.push(x)
        } else {
            prev
        }
    }
}

/// Accepted values of all keys after one scan that sampled `s`.
pub open spec fn scan_stable(stable: Seq<bool>, streak: Seq<u16>, s: MatrixSnapshot, threshold: u16) -> Seq<bool> {
    Seq::new(NUM_KEYS as nat, |k: int| key_step(stable[k], streak[k], sample_at(s, k), threshold).0)
}

/// Streaks of all keys after one scan that sampled `s`.
pub open spec fn scan_streak(stable: Seq<bool>, streak: Seq<u16>, s: MatrixSnapshot, threshold: u16) -> Seq<u16> {
    Seq::new(NUM_KEYS as nat, |k: int| key_step(stable[k], streak[k], sample_at(s, k), threshold).1)
}

/// Accepted values and streaks of all keys after the scans `ss`, in order.
pub open spec fn state_after(
    stable: Seq<bool>,
    streak: Seq<u16>,
    threshold: u16,
    ss: Seq<MatrixSnapshot>,
) -> (Seq<bool>, Seq<u16>)
    decreases ss.len(),
{
    if ss.len() == 0 {
        (stable, streak)
    } else {
        let p = state_after(stable, streak, threshold, ss.drop_last());
        (scan_stable(p.0, p.1, ss.last(), threshold), scan_streak(p.0, p.1, ss.last(), threshold))
    }
}

/// The events of scan `t` of the scans `ss`.
pub open spec fn scan_events(
    stable: Seq<bool>,
    streak: Seq<u16>,
    threshold: u16,
    ss: Seq<MatrixSnapshot>,
    t: int,
) -> Seq<KeyEvent> {
    let p = state_after(stable, streak, threshold, ss.take(t));
    events_upto(p.0, p.1, ss[t], threshold, NUM_KEYS as nat)
}

/// The row-major number of the key that event `e` is about.
pub open spec fn key_index(e: KeyEvent) -> int {
    e.row_of() * COLS + e.col_of()
}

/// Counting debouncer: a key's accepted value flips once `threshold`
/// consecutive scans have sampled the other value.
pub struct Debouncer {
    stable: Vec<bool>,
    streak: Vec<u16>,
    threshold: u16,
}

impl Debouncer {
    /// Accepted value of each key, in row-major order.
    pub closed spec fn stable_view(&self) -> Seq<bool> {
        self.stable@
    }

    /// Length of each key's current streak of differing samples.
    pub closed spec fn streak_view(&self) -> Seq<u16> {
        self.streak@
    }

    pub closed spec fn threshold_view(&self) -> u16 {
        self.threshold
    }

    pub closed spec fn wf(&self) -> bool {
        &&& self.stable@.len() == NUM_KEYS
        &&& self.streak@.len() == NUM_KEYS
        &&& forall|k: int|
            0 <= k < NUM_KEYS ==> #[trigger] self.streak@[k] == 0 || self.streak@[k] < self.threshold
    }

    /// `next` is this debouncer after a scan that sampled `sample`: each
    /// key has taken one debounce step.
    pub open spec fn stepped(&self, sample: MatrixSnapshot, next: Debouncer) -> bool {
        &&& next.threshold_view() == self.threshold_view()
        &&& next.stable_view() == scan_stable(
            self.stable_view(),
            self.streak_view(),
            sample,
            self.threshold_view(),
        )
        &&& next.streak_view() == scan_streak(
            self.stable_view(),
            self.streak_view(),
            sample,
            self.threshold_view(),
        )
    }

    /// The events of a scan that sampled `sample`, in row-major order.
    pub open spec fn events_for(&self, sample: MatrixSnapshot) -> Seq<KeyEvent> {
        events_upto(
            self.stable_view(),
            self.streak_view(),
            sample,
            self.threshold_view(),
            NUM_KEYS as nat,
        )
    }

    /// A debouncer with every key released and settled.
    pub fn new(threshold: u16) -> (d: Debouncer)
        ensures
            d.wf(),
            d.threshold_view() == threshold,
            d.stable_view() == Seq::new(NUM_KEYS as nat, |k: int| false),
            d.streak_view() == Seq::new(NUM_KEYS as nat, |k: int| 0u16),
    {
        let mut stable: Vec<bool> = Vec::new();
        let mut streak: Vec<u16> = Vec::new();
        let mut k: usize = 0;
        while k < NUM_KEYS
            invariant
                k <= NUM_KEYS,
                stable@.len() == k,
                streak@.len() == k,
                forall|i: int| 0 <= i < k ==> stable@[i] == false && streak@[i] == 0,
            decreases NUM_KEYS - k,
        {
            stable.push(false);
            streak.push(0);
            k = k + 1;
        }
        let d = Debouncer { stable, streak, threshold };
        assert(d.stable_view() =~= Seq::new(NUM_KEYS as nat, |k: int| false));
        assert(d.streak_view() =~= Seq::new(NUM_KEYS as nat, |k: int| 0u16));
        d
    }

    pub fn threshold(&self) -> (t: u16)
        ensures
            t == self.threshold_view(),
    {
        self.threshold
    }

    /// Accepted value of the key at `(row, col)`.
    pub fn is_pressed(&self, row: usize, col: usize) -> (p: bool)
        requires
            self.wf(),
            row < ROWS,
            col < COLS,
        ensures
            p == self.stable_view()[row * COLS + col],
    {
        self.stable[row * COLS + col]
    }

    /// Feeds one scan; returns the events of the keys whose accepted value
    /// flipped, in row-major order.
    pub fn update(&mut self, sample: &MatrixSnapshot) -> (events: Vec<KeyEvent>)
        requires
            old(self).wf(),
        ensures
            final(self).wf(),
            old(self).stepped(*sample, *final(self)),
            events@ == old(self).events_for(*sample),
    {
        let ghost stable0 = self.stable@;
        let ghost streak0 = self.streak@;
        let ghost threshold0 = self.threshold;
        let mut events: Vec<KeyEvent> = Vec::new();
        let mut k: usize = 0;
        while k < NUM_KEYS
            invariant
                k <= NUM_KEYS,
                self.threshold == threshold0,
                threshold0 == old(self).threshold,
                stable0 == old(self).stable@,
                streak0 == old(self).streak@,
                stable0.len() == NUM_KEYS,
                streak0.len() == NUM_KEYS,
                self.stable@.len() == NUM_KEYS,
                self.streak@.len() == NUM_KEYS,
                forall|i: int|
                    0 <= i < NUM_KEYS ==> #[trigger] streak0[i] == 0 || streak0[i] < self.threshold,
                forall|i: int|
                    0 <= i < NUM_KEYS ==> #[trigger] self.streak@[i] == 0 || self.streak@[i]
                        < self.threshold,
                forall|i: int| k <= i < NUM_KEYS ==> #[trigger] self.stable@[i] == stable0[i],
                forall|i: int| k <= i < NUM_KEYS ==> #[trigger] self.streak@[i] == streak0[i],
                forall|i: int|
                    0 <= i < k ==> {
                        let s = #[trigger] key_step(
                            stable0[i],
                            streak0[i],
                            sample_at(*sample, i),
                            self.threshold,
                        );
                        self.stable@[i] == s.0 && self.streak@[i] == s.1
                    },
                events@ == events_upto(stable0, streak0, *sample, self.threshold, k as nat),
            decreases NUM_KEYS - k,
        {
            let row = k / COLS;
            let col = k % COLS;
            let x = sample[row][col];
            let cur = self.stable[k];
            let n = self.streak[k];
            if x == cur {
                self.streak.set(k, 0);
            } else if n as u32 + 1 >= self.threshold as u32 {
                self.stable.set(k, x);
                self.streak.set(k, 0);
                let e = if x {
                    KeyEvent::Press(row as u8, col as u8)
                } else {
                    KeyEvent::Release(row as u8, col as u8)
                };
                events.push(e);
            } else {
                self.streak.set(k, n + 1);
            }
            k = k + 1;
        }
        assert(self.stable@ =~= scan_stable(stable0, streak0, *sample, threshold0));
        assert(self.streak@ =~= scan_streak(stable0, streak0, *sample, threshold0));
        events
    }
}

/// Every event of a scan lies inside the matrix.
pub proof fn lemma_events_in_matrix(
    stable: Seq<bool>,
    streak: Seq<u16>,
    s: MatrixSnapshot,
    threshold: u16,
    k: nat,
)
    requires
        k <= NUM_KEYS,
    ensures
        forall|i: int|
            0 <= i < events_upto(stable, streak, s, threshold, k).len() ==> {
                let e = #[trigger] events_upto(stable, streak, s, threshold, k)[i];
                e.row_of() < ROWS && e.col_of() < COLS
            },
    decreases k,
{
    if k > 0 {
        lemma_events_in_matrix(stable, streak, s, threshold, (k - 1) as nat);
    }
}

/// A scan reports a key pressed only when its accepted value was released,
/// and released only when it was pressed: each key's events alternate, so
/// no press follows a press without a release between them.
pub proof fn lemma_events_alternate(d: Debouncer, sample: MatrixSnapshot)
    requires
        d.wf(),
    ensures
        forall|i: int|
            0 <= i < d.events_for(sample).len() ==> {
                let e = #[trigger] d.events_for(sample)[i];
                let k = e.row_of() * COLS + e.col_of();
                0 <= k < NUM_KEYS && (e is Press) == !d.stable_view()[k]
            },
{
    lemma_events_upto_alternate(
        d.stable_view(),
        d.streak_view(),
        sample,
        d.threshold_view(),
        NUM_KEYS as nat,
    );
}

proof fn lemma_events_upto_alternate(
    stable: Seq<bool>,
    streak: Seq<u16>,
    s: MatrixSnapshot,
    threshold: u16,
    k: nat,
)
    requires
        k <= NUM_KEYS,
    ensures
        forall|i: int|
            0 <= i < events_upto(stable, streak, s, threshold, k).len() ==> {
                let e = #[trigger] events_upto(stable, streak, s, threshold, k)[i];
                let j = e.row_of() * COLS + e.col_of();
                0 <= j < k && (e is Press) == !stable[j]
            },
    decreases k,
{
    if k > 0 {
        lemma_events_upto_alternate(stable, streak, s, threshold, (k - 1) as nat);
        let j = k - 1;
        assert((j / (COLS as int)) * (COLS as int) + j % (COLS as int) == j);
    }
}

/// The events of one scan come in strictly increasing key order, so at
/// most one per key; key `key` reports one exactly when its step flips its
/// accepted value, and the event carries the sampled value.
proof fn lemma_events_by_key(
    stable: Seq<bool>,
    streak: Seq<u16>,
    s: MatrixSnapshot,
    threshold: u16,
    k: nat,
)
    requires
        k <= NUM_KEYS,
    ensures
        forall|i: int, j: int|
            0 <= i < j < events_upto(stable, streak, s, threshold, k).len() ==> key_index(
                #[trigger] events_upto(stable, streak, s, threshold, k)[i],
            ) < key_index(#[trigger] events_upto(stable, streak, s, threshold, k)[j]),
        forall|i: int|
            0 <= i < events_upto(stable, streak, s, threshold, k).len() ==> {
                let e = #[trigger] events_upto(stable, streak, s, threshold, k)[i];
                let j = key_index(e);
                &&& 0 <= j < k
                &&& e == key_event(j, sample_at(s, j))
                &&& key_step(stable[j], streak[j], sample_at(s, j), threshold).2
            },
        forall|key: int|
            0 <= key < k && #[trigger] key_step(
                stable[key],
                streak[key],
                sample_at(s, key),
                threshold,
            ).2 ==> exists|i: int|
                0 <= i < events_upto(stable, streak, s, threshold, k).len() && key_index(
                    #[trigger] events_upto(stable, streak, s, threshold, k)[i],
                ) == key,
    decreases k,
{
    if k > 0 {
        lemma_events_by_key(stable, streak, s, threshold, (k - 1) as nat);
        let j = k - 1;
        let e = key_event(j, sample_at(s, j));
        assert(key_index(e) == j) by {
            assert((j / (COLS as int)) * (COLS as int) + j % (COLS as int) == j);
        }
        let prev = events_upto(stable, streak, s, threshold, (k - 1) as nat);
        let cur = events_upto(stable, streak, s, threshold, k);
        if key_step(stable[j], streak[j], sample_at(s, j), threshold).2 {
            assert(cur == prev.push(e));
            assert(cur[prev.len() as int] == e);
            assert forall|key: int|
                0 <= key < k && #[trigger] key_step(
                    stable[key],
                    streak[key],
                    sample_at(s, key),
                    threshold,
                ).2 implies exists|i: int| 0 <= i < cur.len() && key_index(#[trigger] cur[i]) == key by {
                if key < j {
                    let i = choose|i: int| 0 <= i < prev.len() && key_index(#[trigger] prev[i]) == key;
                    assert(cur[i] == prev[i]);
                } else {
                    assert(key_index(cur[prev.len() as int]) == key);
                }
            }
        }
    }
}

/// The state of key `key` after a run of scans that all sampled `x` there
/// is that of the key alone, whatever the other keys sampled.
proof fn lemma_state_after_key(
    stable: Seq<bool>,
    streak: Seq<u16>,
    threshold: u16,
    ss: Seq<MatrixSnapshot>,
    key: int,
    x: bool,
)
    requires
        stable.len() == NUM_KEYS,
        streak.len() == NUM_KEYS,
        0 <= key < NUM_KEYS,
        forall|t: int| 0 <= t < ss.len() ==> sample_at(#[trigger] ss[t], key) == x,
    ensures
        state_after(stable, streak, threshold, ss).0.len() == NUM_KEYS,
        state_after(stable, streak, threshold, ss).1.len() == NUM_KEYS,
        state_after(stable, streak, threshold, ss).0[key] == key_after(
            stable[key],
            streak[key],
            x,
            threshold,
            ss.len(),
        ).0,
        state_after(stable, streak, threshold, ss).1[key] == key_after(
            stable[key],
            streak[key],
            x,
            threshold,
            ss.len(),
        ).1,
    decreases ss.len(),
{
    if ss.len() > 0 {
        let p = ss.drop_last();
        assert forall|t: int| 0 <= t < p.len() implies sample_at(#[trigger] p[t], key) == x by {
            assert(p[t] == ss[t]);
        }
        lemma_state_after_key(stable, streak, threshold, p, key, x);
        assert(sample_at(ss.last(), key) == x);
    }
}

/// Over a whole matrix, whatever the other keys do: a key that has settled
/// at `stable[key]` and then samples `x` at every scan reports nothing
/// during the first `threshold - 1` scans and keeps its accepted value; at
/// scan number `threshold` it reports exactly one event, the transition to
/// `x`, when `x` differs from its accepted value, and nothing otherwise.
/// Each scan reports at most one event per key.
pub proof fn lemma_matrix_debounce(
    stable: Seq<bool>,
    streak: Seq<u16>,
    threshold: u16,
    ss: Seq<MatrixSnapshot>,
    key: int,
    x: bool,
)
    requires
        threshold >= 1,
        stable.len() == NUM_KEYS,
        streak.len() == NUM_KEYS,
        0 <= key < NUM_KEYS,
        streak[key] == 0,
        ss.len() <= threshold,
        forall|t: int| 0 <= t < ss.len() ==> sample_at(#[trigger] ss[t], key) == x,
    ensures
        forall|t: int|
            #![trigger scan_events(stable, streak, threshold, ss, t)]
            0 <= t < ss.len() ==> ((exists|i: int|
                0 <= i < scan_events(stable, streak, threshold, ss, t).len() && key_index(
                    #[trigger] scan_events(stable, streak, threshold, ss, t)[i],
                ) == key) <==> (t + 1 == threshold && x != stable[key])),
        forall|t: int, i: int|
            0 <= t < ss.len() && 0 <= i < scan_events(stable, streak, threshold, ss, t).len()
                && key_index(#[trigger] scan_events(stable, streak, threshold, ss, t)[i]) == key
                ==> scan_events(stable, streak, threshold, ss, t)[i] == key_event(key, x),
        forall|t: int, i: int, j: int|
            0 <= t < ss.len() && 0 <= i < j < scan_events(stable, streak, threshold, ss, t).len()
                ==> key_index(#[trigger] scan_events(stable, streak, threshold, ss, t)[i])
                < key_index(#[trigger] scan_events(stable, streak, threshold, ss, t)[j]),
        ss.len() < threshold ==> state_after(stable, streak, threshold, ss).0[key] == stable[key],
{
    assert forall|t: int|
        #![trigger scan_events(stable, streak, threshold, ss, t)]
        0 <= t < ss.len() implies {
        let ev = scan_events(stable, streak, threshold, ss, t);
        &&& ((exists|i: int| 0 <= i < ev.len() && key_index(#[trigger] ev[i]) == key) <==> (t + 1
            == threshold && x != stable[key]))
        &&& forall|i: int| 0 <= i < ev.len() && key_index(#[trigger] ev[i]) == key ==> ev[i] == key_event(key, x)
        &&& forall|i: int, j: int| 0 <= i < j < ev.len() ==> key_index(#[trigger] ev[i]) < key_index(#[trigger] ev[j])
    } by {
        let pre = ss.take(t);
        assert forall|u: int| 0 <= u < pre.len() implies sample_at(#[trigger] pre[u], key) == x by {
            assert(pre[u] == ss[u]);
        }
        lemma_state_after_key(stable, streak, threshold, pre, key, x);
        lemma_run_prefix(stable[key], x, threshold, t as nat);
        let p = state_after(stable, streak, threshold, pre);
        lemma_events_by_key(p.0, p.1, ss[t], threshold, NUM_KEYS as nat);
        assert(sample_at(ss[t], key) == x);
        assert(pre.len() == t);
        let fires = key_step(p.0[key], p.1[key], sample_at(ss[t], key), threshold).2;
        assert(fires <==> (t + 1 == threshold && x != stable[key]));
        let ev = scan_events(stable, streak, threshold, ss, t);
        assert(ev == events_upto(p.0, p.1, ss[t], threshold, NUM_KEYS as nat));
        if exists|i: int| 0 <= i < ev.len() && key_index(#[trigger] ev[i]) == key {
            let i = choose|i: int| 0 <= i < ev.len() && key_index(#[trigger] ev[i]) == key;
            assert(key_step(p.0[key_index(ev[i])], p.1[key_index(ev[i])], sample_at(ss[t], key_index(ev[i])), threshold).2);
        }
    }
    if ss.len() < threshold {
        lemma_state_after_key(stable, streak, threshold, ss, key, x);
        lemma_run_prefix(stable[key], x, threshold, ss.len());
    }
}

/// A key that has settled and then samples the same value `x` at every
/// scan reports nothing while fewer than `threshold` scans have passed; at
/// exactly `threshold` scans it has reported one event, a transition to
/// `x`, if `x` differs from its accepted value, and none otherwise.
pub proof fn lemma_debounce_threshold(stable: bool, x: bool, threshold: u16, n: nat)
    requires
        threshold >= 1,
        n <= threshold,
    ensures
        n < threshold ==> run_events(stable, 0, x, threshold, n) == Seq::<bool>::empty(),
        n == threshold && x != stable ==> run_events(stable, 0, x, threshold, n) == seq![x],
        n == threshold && x != stable ==> key_after(stable, 0, x, threshold, n).0 == x,
        x == stable ==> run_events(stable, 0, x, threshold, n) == Seq::<bool>::empty(),
{
    lemma_run_prefix(stable, x, threshold, n);
}

/// Before the threshold is reached, a key fed a constant sample keeps its
/// accepted value, counts the scans and reports nothing.
proof fn lemma_run_prefix(stable: bool, x: bool, threshold: u16, n: nat)
    requires
        threshold >= 1,
        n <= threshold,
    ensures
        n < threshold ==> key_after(stable, 0, x, threshold, n) == (
        stable,
        (if x == stable {
            0
        } else {
            n
        }) as u16,
        ),
        n < threshold ==> run_events(stable, 0, x, threshold, n) == Seq::<bool>::empty(),
        n == threshold && x != stable ==> key_after(stable, 0, x, threshold, n) == (x, 0u16),
        n == threshold && x != stable ==> run_events(stable, 0, x, threshold, n) == seq![x],
        x == stable ==> run_events(stable, 0, x, threshold, n) == Seq::<bool>::empty(),
    decreases n,
{
    if n > 0 {
        lemma_run_prefix(stable, x, threshold, (n - 1) as nat);
    }
}

} // verus!
