//! Holds a live search back until typing has paused.

use vstd::prelude::*;

verus! {

/// Pause after the last edit, in milliseconds, before a live search runs.
pub const DEBOUNCE_INTERVAL_MS: u64 = 150;

/// What the timer remembers: when the query was last edited, whether a
/// search is still owed for that edit, and how long to wait.
pub struct Timer {
    pub last_edit: nat,
    pub armed: bool,
    pub interval: nat,
}

/// Something the timer is told, with the clock reading in milliseconds.
pub enum Pulse {
    /// The query text changed.
    Edit(nat),
    /// The interactive loop came round.
    Tick(nat),
}

impl Pulse {
    /// When the pulse happened.
    pub open spec fn at(self) -> nat {
        match self {
            Pulse::Edit(t) => t,
            Pulse::Tick(t) => t,
        }
    }
}

impl Timer {
    /// Time since the last edit; a clock that reads earlier counts as no time.
    pub open spec fn elapsed(self, now: nat) -> nat {
        if now >= self.last_edit {
            (now - self.last_edit) as nat
        } else {
            0
        }
    }

    /// A search is owed and the pause has been long enough.
    pub open spec fn due(self, now: nat) -> bool {
        self.armed && self.elapsed(now) >= self.interval
    }

    /// The timer after an edit at `now`.
    pub open spec fn edit(self, now: nat) -> Timer {
        Timer { last_edit: now, armed: true, interval: self.interval }
    }

    /// The timer after a tick at `now`: a search that was due is no longer owed.
    pub open spec fn poll(self, now: nat) -> Timer {
        if self.due(now) {
            Timer { last_edit: self.last_edit, armed: false, interval: self.interval }
        } else {
            self
        }
    }

    /// The timer after one pulse.
    pub open spec fn step(self, pulse: Pulse) -> Timer {
        match pulse {
            Pulse::Edit(t) => self.edit(t),
            Pulse::Tick(t) => self.poll(t),
        }
    }

    /// Whether the pulse starts a search.
    pub open spec fn fires(self, pulse: Pulse) -> bool {
        match pulse {
            Pulse::Edit(_) => false,
            Pulse::Tick(t) => self.due(t),
        }
    }

    /// The timer after a run of pulses.
    pub open spec fn run(self, pulses: Seq<Pulse>) -> Timer
        decreases pulses.len(),
    {
        if pulses.len() == 0 {
            self
        } else {
            self.run(pulses.drop_last()).step(pulses.last())
        }
    }

    /// Number of searches started during a run of pulses.
    pub open spec fn firings(self, pulses: Seq<Pulse>) -> nat
        decreases pulses.len(),
    {
        if pulses.len() == 0 {
            0
        } else {
            self.firings(pulses.drop_last()) + if self.run(pulses.drop_last()).fires(
                pulses.last(),
            ) {
                1nat
            } else {
                0nat
            }
        }
    }
}

/// The clock never runs backwards along the run.
pub open spec fn in_time_order(pulses: Seq<Pulse>) -> bool {
    forall|i: int, j: int| 0 <= i <= j < pulses.len() ==> pulses[i].at() <= pulses[j].at()
}

/// The run opens with an edit at `first`, and all its edits fall between
/// `first` and `last`, less than one interval apart.
pub open spec fn is_burst(pulses: Seq<Pulse>, first: nat, last: nat, interval: nat) -> bool {
    &&& pulses.len() > 0
    &&& pulses[0] == Pulse::Edit(first)
    &&& last < first + interval
    &&& in_time_order(pulses)
    &&& forall|k: int|
        0 <= k < pulses.len() && (#[trigger] pulses[k]) is Edit ==> first <= pulses[k].at() <= last
}

/// What holds after every non-empty prefix of a burst.
spec fn burst_inv(t: Timer, pulses: Seq<Pulse>, first: nat, last: nat) -> bool {
    let s = t.run(pulses);
    &&& s.interval == t.interval
    &&& first <= s.last_edit <= last
    &&& t.firings(pulses) <= 1
    &&& t.firings(pulses) == 1 ==> !s.armed && pulses.last().at() >= first + t.interval
    &&& forall|j: int|
        0 <= j < pulses.len() && (#[trigger] pulses[j]) is Edit ==> pulses[j].at() <= s.last_edit
}

proof fn lemma_burst_prefix(t: Timer, pulses: Seq<Pulse>, first: nat, last: nat, n: int)
    requires
        is_burst(pulses, first, last, t.interval),
        1 <= n <= pulses.len(),
    ensures
        burst_inv(t, pulses.take(n), first, last),
    decreases n,
{
    let p = pulses.take(n);
    assert(p.drop_last() =~= pulses.take(n - 1));
    assert(p.last() == pulses[n - 1]);
    if n == 1 {
        assert(p.drop_last().len() == 0);
        assert(t.run(p.drop_last()) == t);
        assert(t.firings(p.drop_last()) == 0);
    } else {
        lemma_burst_prefix(t, pulses, first, last, n - 1);
        let q = pulses.take(n - 1);
        assert(q.last() == pulses[n - 2]);
        let s = t.run(q);
        assert forall|j: int| 0 <= j < p.len() && (#[trigger] p[j]) is Edit implies p[j].at()
            <= t.run(p).last_edit by {
            if j < n - 1 {
                assert(q[j] == p[j]);
            }
        }
    }
}

/// A burst of edits that spans less than the interval starts at most one
/// search, whatever ticks fall in between and after, and a tick that
/// starts one comes no sooner than the interval after every edit of the
/// burst.
pub proof fn lemma_burst_fires_at_most_once(
    t: Timer,
    pulses: Seq<Pulse>,
    first: nat,
    last: nat,
    k: int,
)
    requires
        is_burst(pulses, first, last, t.interval),
        0 <= k < pulses.len(),
    ensures
        t.firings(pulses) <= 1,
        t.run(pulses.take(k)).fires(pulses[k]) ==> forall|j: int|
            0 <= j < pulses.len() && (#[trigger] pulses[j]) is Edit ==> pulses[k].at()
                >= pulses[j].at() + t.interval,
{
    lemma_burst_prefix(t, pulses, first, last, pulses.len() as int);
    assert(pulses.take(pulses.len() as int) =~= pulses);
    if t.run(pulses.take(k)).fires(pulses[k]) {
        assert(k >= 1);
        lemma_burst_prefix(t, pulses, first, last, k);
        let s = t.run(pulses.take(k));
        assert forall|j: int| 0 <= j < pulses.len() && (#[trigger] pulses[j]) is Edit implies
            pulses[k].at() >= pulses[j].at() + t.interval by {
            if j < k {
                assert(pulses.take(k)[j] == pulses[j]);
            }
        }
    }
}

/// A tick that starts a search disarms the timer: until the next edit no
/// tick starts another.
pub proof fn lemma_no_second_firing(t: Timer, now: nat, later: nat)
    requires
        t.due(now),
    ensures
        !t.poll(now).due(later),
        t.poll(now).edit(later).armed,
{
}

/// The debounce timer of a search session.
pub struct Debounce {
    last_edit: u64,
    armed: bool,
    interval: u64,
}

impl View for Debounce {
    type V = Timer;

    closed spec fn view(&self) -> Timer {
        Timer {
            last_edit: self.last_edit as nat,
            armed: self.armed,
            interval: self.interval as nat,
        }
    }
}

impl Debounce {
    /// A timer made at `now`, which counts as the first edit.
    pub fn new(now: u64, interval: u64) -> (timer: Self)
        ensures
            timer@ == (Timer { last_edit: now as nat, armed: true, interval: interval as nat }),
    {
        Debounce { last_edit: now, armed: true, interval }
    }

    /// Records an edit of the query at `now` and arms the timer again.
    pub fn record_edit(&mut self, now: u64)
        ensures
            final(self)@ == old(self)@.edit(now as nat),
    {
        self.last_edit = now;
        self.armed = true;
    }

    /// Whether a tick at `now` would start a search.
    pub fn is_due(&self, now: u64) -> (due: bool)
        ensures
            due == self@.due(now as nat),
    {
        let elapsed = if now >= self.last_edit {
            now - self.last_edit
        } else {
            0
        };
        self.armed && elapsed >= self.interval
    }

    /// A tick at `now`: returns whether a search starts, and disarms the
    /// timer if it does.
    pub fn poll(&mut self, now: u64) -> (fired: bool)
        ensures
            fired == old(self)@.due(now as nat),
            final(self)@ == old(self)@.poll(now as nat),
    {
        if self.is_due(now) {
            self.armed = false;
            true
        } else {
            false
        }
    }
}

} // verus!
