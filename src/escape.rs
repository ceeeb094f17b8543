//! Escape-time counting. The orbit `z <- z^2 + c` is stepped by the caller;
//! after each step it reports whether `|z| > 2`, and the counter decides when
//! to stop and which iteration count to report.
use vstd::prelude::*;

verus! {

/// The iteration reported for an orbit whose step `k + 1` escaped exactly when
/// `escaped[k]` holds, with iterations numbered from 1 and stopped at `cap`,
/// looking from step `k + 1` on.
pub open spec fn escape_from(escaped: Seq<bool>, cap: nat, k: nat) -> nat
    decreases cap - k,
{
    if k + 1 >= cap || (k < escaped.len() && escaped[k as int]) {
        k + 1
    } else {
        escape_from(escaped, cap, k + 1)
    }
}

/// The first iteration after which the orbit had escaped, or `cap` if it had
/// not escaped by then.
pub open spec fn escape_time(escaped: Seq<bool>, cap: nat) -> nat {
    escape_from(escaped, cap, 0)
}

proof fn lemma_escape_from_bounds(escaped: Seq<bool>, cap: nat, k: nat)
    requires
        k < cap,
    ensures
        k + 1 <= escape_from(escaped, cap, k) <= cap,
    decreases cap - k,
{
    if !(k + 1 >= cap || (k < escaped.len() && escaped[k as int])) {
        lemma_escape_from_bounds(escaped, cap, k + 1);
    }
}

/// For every orbit and every cap of at least one, the reported iteration lies
/// in `[1, cap]`.
pub proof fn lemma_escape_time_bounded(escaped: Seq<bool>, cap: nat)
    requires
        cap >= 1,
    ensures
        1 <= escape_time(escaped, cap) <= cap,
{
    lemma_escape_from_bounds(escaped, cap, 0);
}

proof fn lemma_escape_from_prefix(escaped: Seq<bool>, cap: nat, k: nat, j: nat)
    requires
        j <= k < cap,
        forall|i: int| j <= i < k ==> !#[trigger] escaped[i],
        k < escaped.len(),
    ensures
        escape_from(escaped, cap, j) == escape_from(escaped, cap, k),
    decreases k - j,
{
    if j < k {
        assert(!escaped[j as int]);
        lemma_escape_from_prefix(escaped, cap, k, j + 1);
    }
}

/// Counts the iterations of one orbit until it escapes or reaches the cap.
pub struct EscapeCounter {
    cap: u32,
    count: u32,
    escaped: bool,
    history: Ghost<Seq<bool>>,
}

impl EscapeCounter {
    /// What the orbit reported so far, one entry per completed iteration.
    pub closed spec fn history(&self) -> Seq<bool> {
        self.history@
    }

    pub closed spec fn cap(&self) -> nat {
        self.cap as nat
    }

    pub closed spec fn wf(&self) -> bool {
        &&& self.cap >= 1
        &&& self.count as nat == self.history@.len()
        &&& self.count <= self.cap
        &&& forall|i: int| 0 <= i < self.history@.len() - 1 ==> !#[trigger] self.history@[i]
        &&& self.escaped == (self.count > 0 && self.history@[self.count - 1])
    }

    /// Whether no further iteration is to be run.
    pub open spec fn finished(&self) -> bool {
        (self.history().len() > 0 && self.history().last()) || self.history().len() >= self.cap()
    }

    /// A counter for an orbit with iteration cap `cap`.
    pub fn new(cap: u32) -> (c: EscapeCounter)
        requires
            cap >= 1,
        ensures
            c.wf(),
            c.cap() == cap,
            c.history() == Seq::<bool>::empty(),
            !c.finished(),
    {
        EscapeCounter { cap, count: 0, escaped: false, history: Ghost(Seq::empty()) }
    }

    /// Whether the orbit has escaped or the cap is reached.
    pub fn is_finished(&self) -> (b: bool)
        requires
            self.wf(),
        ensures
            b == self.finished(),
    {
        self.escaped || self.count >= self.cap
    }

    /// Records one completed iteration, and whether `|z| > 2` after it.
    pub fn record(&mut self, escaped: bool)
        requires
            old(self).wf(),
            !old(self).finished(),
        ensures
            final(self).wf(),
            final(self).cap() == old(self).cap(),
            final(self).history() == old(self).history().push(escaped),
    {
        self.count = self.count + 1;
        self.escaped = escaped;
        self.history = Ghost(self.history@.push(escaped));
    }

    /// The iteration count reported for the orbit: the iteration after which
    /// it escaped, or the cap.
    pub fn iterations(&self) -> (n: u32)
        requires
            self.wf(),
            self.finished(),
        ensures
            n == escape_time(self.history(), self.cap()),
            1 <= n <= self.cap(),
    {
        proof {
            let h = self.history@;
            let k = (self.count - 1) as nat;
            lemma_escape_from_prefix(h, self.cap as nat, k, 0);
            lemma_escape_time_bounded(h, self.cap as nat);
        }
        self.count
    }
}

} // verus!
