use vstd::prelude::*;

verus! {

/// Width of the sliding window over inbound sequence numbers.
pub const REPLAY_WINDOW: u64 = 256;

/// What the window says of an inbound sequence number.
#[derive(Debug, Clone, Copy, PartialEq, Eq, Structural)]
pub enum ReplayVerdict {
    /// Not seen before and inside the window.
    Fresh,
    /// At or below `highest - REPLAY_WINDOW`.
    Stale,
    /// Already accepted.
    Duplicate,
}

/// Sliding window that accepts each inbound sequence number at most once.
pub struct ReplayWindow {
    highest: u64,
    entries: Vec<Option<u64>>,
    accepted: Ghost<Set<u64>>,
}

/// True when `s` lies at or below `highest - REPLAY_WINDOW`.
pub open spec fn is_stale(highest: u64, s: u64) -> bool {
    s + REPLAY_WINDOW <= highest
}

proof fn lemma_same_slot_same_seq(a: u64, b: u64, h: u64)
    requires
        a <= h,
        b <= h,
        a + REPLAY_WINDOW > h,
        b + REPLAY_WINDOW > h,
        a % REPLAY_WINDOW == b % REPLAY_WINDOW,
    ensures
        a == b,
{
    let w = REPLAY_WINDOW as int;
    let ai = a as int;
    let bi = b as int;
    vstd::arithmetic::div_mod::lemma_fundamental_div_mod(ai, w);
    vstd::arithmetic::div_mod::lemma_fundamental_div_mod(bi, w);
    let qa = ai / w;
    let qb = bi / w;
    assert(ai - bi == w * (qa - qb));
    assert(-w < ai - bi < w);
    if qa - qb >= 1 {
        assert(w * (qa - qb) >= w) by (nonlinear_arith)
            requires qa - qb >= 1, w > 0;
    } else if qa - qb <= -1 {
        assert(w * (qa - qb) <= -w) by (nonlinear_arith)
            requires qa - qb <= -1, w > 0;
    }
}

impl ReplayWindow {
    /// The highest sequence number accepted so far (0 before any).
    pub closed spec fn highest(&self) -> u64 {
        self.highest
    }

    /// Every sequence number accepted so far.
    pub closed spec fn accepted(&self) -> Set<u64> {
        self.accepted@
    }

    pub closed spec fn wf(&self) -> bool {
        &&& self.entries@.len() == REPLAY_WINDOW
        &&& forall|s: u64| #[trigger] self.accepted@.contains(s) ==> s <= self.highest
        &&& forall|s: u64|
            #[trigger] self.accepted@.contains(s) && s + REPLAY_WINDOW > self.highest
                ==> self.entries@[(s % REPLAY_WINDOW) as int] == Some(s)
        &&& forall|i: int|
            0 <= i < REPLAY_WINDOW && (#[trigger] self.entries@[i]) is Some
                ==> self.accepted@.contains(self.entries@[i]->0)
    }

    /// The verdict on `s`: stale below the window, duplicate when accepted
    /// before, fresh otherwise.
    pub open spec fn verdict(&self, s: u64) -> ReplayVerdict {
        if is_stale(self.highest(), s) {
            ReplayVerdict::Stale
        } else if self.accepted().contains(s) {
            ReplayVerdict::Duplicate
        } else {
            ReplayVerdict::Fresh
        }
    }

    /// An empty window.
    pub fn new() -> (r: ReplayWindow)
        ensures
            r.wf(),
            r.highest() == 0,
            r.accepted() == Set::<u64>::empty(),
    {
        let mut entries: Vec<Option<u64>> = Vec::new();
        let mut i: u64 = 0;
        while i < REPLAY_WINDOW
            invariant
                i <= REPLAY_WINDOW,
                entries@.len() == i,
                forall|j: int| 0 <= j < i ==> entries@[j] == None::<u64>,
            decreases REPLAY_WINDOW - i,
        {
            entries.push(None);
            i = i + 1;
        }
        ReplayWindow { highest: 0, entries, accepted: Ghost(Set::empty()) }
    }

    /// Classifies `s` without changing the window.
    pub fn check(&self, s: u64) -> (r: ReplayVerdict)
        requires
            self.wf(),
        ensures
            r == self.verdict(s),
    {
        if self.highest >= REPLAY_WINDOW && s <= self.highest - REPLAY_WINDOW {
            return ReplayVerdict::Stale;
        }
        let slot = (s % REPLAY_WINDOW) as usize;
        match self.entries[slot] {
            Some(t) if t == s => {
                assert(self.entries@[slot as int] == Some(s));
                ReplayVerdict::Duplicate
            },
            _ => {
                proof {
                    if self.accepted@.contains(s) {
                        assert(s <= self.highest);
                    }
                }
                ReplayVerdict::Fresh
            },
        }
    }

    /// Records `s` as accepted.
    pub fn mark(&mut self, s: u64)
        requires
            old(self).wf(),
            old(self).verdict(s) == ReplayVerdict::Fresh,
        ensures
            final(self).wf(),
            final(self).accepted() == old(self).accepted().insert(s),
            final(self).highest() == if s > old(self).highest() { s } else { old(self).highest() },
    {
        let ghost prev = *self;
        let slot = (s % REPLAY_WINDOW) as usize;
        self.entries.set(slot, Some(s));
        if s > self.highest {
            self.highest = s;
        }
        self.accepted = Ghost(self.accepted@.insert(s));
        assert forall|t: u64|
            #[trigger] self.accepted@.contains(t) && t + REPLAY_WINDOW > self.highest
                implies self.entries@[(t % REPLAY_WINDOW) as int] == Some(t) by {
            if t != s {
                assert(prev.accepted@.contains(t));
                assert(t + REPLAY_WINDOW > prev.highest);
                if t % REPLAY_WINDOW == s % REPLAY_WINDOW {
                    lemma_same_slot_same_seq(t, s, self.highest);
                }
            }
        }
        assert forall|i: int|
            0 <= i < REPLAY_WINDOW && (#[trigger] self.entries@[i]) is Some
                implies self.accepted@.contains(self.entries@[i]->0) by {
            if i != slot as int {
                assert(prev.entries@[i] == self.entries@[i]);
            }
        }
    }
}

/// A sequence number accepted by a window is never judged fresh again, and
/// any number at or below `highest - REPLAY_WINDOW` is judged stale.
pub proof fn lemma_replay_soundness(w: ReplayWindow, s: u64)
    requires
        w.wf(),
    ensures
        w.accepted().contains(s) ==> w.verdict(s) != ReplayVerdict::Fresh,
        is_stale(w.highest(), s) ==> w.verdict(s) == ReplayVerdict::Stale,
{
}

} // verus!
