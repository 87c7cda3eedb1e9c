use vstd::prelude::*;

use crate::exchange::Exchange;
use crate::exchange::ExchangeView;

verus! {

/// How many exchanges the history retains before evicting the oldest.
pub const HISTORY_CAPACITY: usize = 30;

/// A bounded, ordered record of completed exchanges. New entries are appended
/// at the tail; once [`HISTORY_CAPACITY`] entries are held, each append first
/// evicts the entry at the head, so the log is a strict FIFO window over the
/// appends with no reordering.
pub struct HistoryLog {
    entries: Vec<Exchange>,
}

impl View for HistoryLog {
    type V = Seq<ExchangeView>;

    closed spec fn view(&self) -> Seq<ExchangeView> {
        self.entries@.map_values(|e: Exchange| e@)
    }
}

/// What one append leaves in the log: the new entry at the tail, with the
/// oldest entry dropped first when the log is already full.
pub open spec fn appended(s: Seq<ExchangeView>, e: ExchangeView) -> Seq<ExchangeView> {
    if s.len() < HISTORY_CAPACITY {
        s.push(e)
    } else {
        s.drop_first().push(e)
    }
}

/// The log left by a whole sequence of appends, oldest first.
pub open spec fn appended_all(s: Seq<ExchangeView>, es: Seq<ExchangeView>) -> Seq<ExchangeView>
    decreases es.len(),
{
    if es.len() == 0 {
        s
    } else {
        appended_all(appended(s, es[0]), es.drop_first())
    }
}

/// At most the last [`HISTORY_CAPACITY`] elements of a sequence, in order.
pub open spec fn last_capped(s: Seq<ExchangeView>) -> Seq<ExchangeView> {
    if s.len() <= HISTORY_CAPACITY {
        s
    } else {
        s.skip(s.len() - HISTORY_CAPACITY)
    }
}

/// Running any sequence of appends over a log within capacity leaves exactly
/// the most recent [`HISTORY_CAPACITY`] entries of log-then-appends, in the
/// order they were appended.
pub proof fn lemma_appended_all_window(s: Seq<ExchangeView>, es: Seq<ExchangeView>)
    requires
        s.len() <= HISTORY_CAPACITY,
    ensures
        appended_all(s, es) =~= last_capped(s + es),
    decreases es.len(),
{
    if es.len() == 0 {
        assert(s + es =~= s);
    } else {
        let s1 = appended(s, es[0]);
        lemma_appended_all_window(s1, es.drop_first());
        if s.len() < HISTORY_CAPACITY {
            assert(s1 + es.drop_first() =~= s + es);
        } else {
            let t = s + es;
            assert(s1 + es.drop_first() =~= t.drop_first());
            assert(last_capped(t.drop_first()) =~= last_capped(t));
        }
    }
}

/// Capacity invariant: however many exchanges are appended to an empty log,
/// its length never exceeds [`HISTORY_CAPACITY`].
pub proof fn lemma_history_capacity(es: Seq<ExchangeView>)
    ensures
        appended_all(Seq::empty(), es).len() <= HISTORY_CAPACITY,
{
    lemma_appended_all_window(Seq::empty(), es);
    assert(Seq::empty() + es =~= es);
}

/// After one append more than the capacity, the first exchange appended has
/// been evicted and the second through last stand in the log, in order.
pub proof fn lemma_history_after_overflow(es: Seq<ExchangeView>)
    requires
        es.len() == HISTORY_CAPACITY + 1,
    ensures
        appended_all(Seq::empty(), es) =~= es.drop_first(),
{
    lemma_appended_all_window(Seq::empty(), es);
    assert(Seq::empty() + es =~= es);
}

/// FIFO eviction: an append at capacity removes exactly the oldest entry and
/// no other, keeping the rest in order with the new entry at the tail.
pub proof fn lemma_fifo_eviction(s: Seq<ExchangeView>, e: ExchangeView)
    requires
        s.len() == HISTORY_CAPACITY,
    ensures
        appended(s, e) =~= s.drop_first().push(e),
        appended(s, e).len() == HISTORY_CAPACITY,
        forall|i: int| 0 <= i < HISTORY_CAPACITY - 1 ==> appended(s, e)[i] == s[i + 1],
        appended(s, e)[HISTORY_CAPACITY - 1] == e,
{
}

impl HistoryLog {
    /// The log's internal invariant: it never holds more than
    /// [`HISTORY_CAPACITY`] entries.
    pub open spec fn wf(&self) -> bool {
        self@.len() <= HISTORY_CAPACITY
    }

    /// An empty log.
    pub fn new() -> (r: Self)
        ensures
            r@ =~= Seq::<ExchangeView>::empty(),
            r.wf(),
    {
        HistoryLog { entries: Vec::new() }
    }

    /// How many exchanges the log currently holds.
    pub fn len(&self) -> (n: usize)
        ensures
            n == self@.len(),
    {
        self.entries.len()
    }

    /// Appends one completed exchange, evicting the oldest entry first when
    /// the log is at capacity.
    pub fn append(&mut self, e: Exchange)
        requires
            old(self).wf(),
        ensures
            final(self)@ =~= appended(old(self)@, e@),
            final(self).wf(),
    {
        if self.entries.len() == HISTORY_CAPACITY {
            self.entries.remove(0);
        }
        self.entries.push(e);
    }

    /// A point-in-time copy of the log, oldest exchange first, safe to walk
    /// while the log itself keeps changing.
    pub fn snapshot(&self) -> (r: Vec<Exchange>)
        ensures
            r@.len() == self@.len(),
            forall|i: int| 0 <= i < r@.len() ==> r@[i]@ == self@[i],
    {
        let mut r: Vec<Exchange> = Vec::new();
        let mut i: usize = 0;
        while i < self.entries.len()
            invariant
                i <= self.entries.len(),
                r@.len() == i,
                forall|j: int| 0 <= j < i ==> r@[j]@ == self@[j],
            decreases self.entries.len() - i,
        {
            r.push(self.entries[i].clone());
            i = i + 1;
        }
        r
    }
}

} // verus!
