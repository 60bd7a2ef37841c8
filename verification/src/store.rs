use vstd::prelude::*;

use crate::reading::Reading;

verus! {

/// What one append does to the retained contents: the reading goes to the
/// tail, and if that would exceed the bound, the head (the oldest element)
/// is evicted.
pub open spec fn append_model(max: int, s: Seq<Reading>, r: Reading) -> Seq<Reading> {
    if s.push(r).len() <= max {
        s.push(r)
    } else {
        s.push(r).skip(1)
    }
}

/// The retained contents after a whole history of appends, starting empty.
pub open spec fn store_after(max: int, appended: Seq<Reading>) -> Seq<Reading>
    decreases appended.len(),
{
    if appended.len() == 0 {
        Seq::empty()
    } else {
        append_model(max, store_after(max, appended.drop_last()), appended.last())
    }
}

/// A bounded, ordered, in-memory history of readings. Insertion order is
/// temporal order; once `max_kept` readings are held, each further append
/// evicts the oldest. The full sequence of appends so far is carried as the
/// ghost `history`, so contracts can relate the contents to it.
pub struct ReadingStore {
    max_kept: usize,
    readings: Vec<Reading>,
    history: Ghost<Seq<Reading>>,
}

impl View for ReadingStore {
    type V = Seq<Reading>;

    closed spec fn view(&self) -> Seq<Reading> {
        self.readings@
    }
}

impl ReadingStore {
    pub closed spec fn max_spec(self) -> int {
        self.max_kept as int
    }

    pub closed spec fn history(self) -> Seq<Reading> {
        self.history@
    }

    /// The store's contents are exactly what the history of appends leaves
    /// retained.
    pub closed spec fn wf(self) -> bool {
        self@ == store_after(self.max_spec(), self.history())
    }

    pub fn new(max_kept: usize) -> (s: ReadingStore)
        ensures
            s.wf(),
            s@ == Seq::<Reading>::empty(),
            s.history() == Seq::<Reading>::empty(),
            s.max_spec() == max_kept as int,
    {
        ReadingStore { max_kept, readings: Vec::new(), history: Ghost(Seq::empty()) }
    }

    pub fn max_kept(&self) -> (m: usize)
        ensures
            m as int == self.max_spec(),
    {
        self.max_kept
    }

    pub fn len(&self) -> (n: usize)
        ensures
            n == self@.len(),
    {
        self.readings.len()
    }

    /// Appends at the tail; evicts the head first when the store is full.
    pub fn append(&mut self, r: Reading)
        requires
            old(self).wf(),
        ensures
            final(self).wf(),
            final(self)@ == append_model(old(self).max_spec(), old(self)@, r),
            final(self).history() == old(self).history().push(r),
            final(self).max_spec() == old(self).max_spec(),
    {
        proof {
            lemma_store_after_len(self.max_spec(), self.history());
        }
        self.readings.push(r);
        if self.readings.len() > self.max_kept {
            self.readings.remove(0);
            proof {
                assert(self.readings@ =~= old(self)@.push(r).skip(1));
            }
        }
        proof {
            self.history@ = self.history@.push(r);
            assert(self.history@.drop_last() =~= old(self).history());
            assert(self@ =~= store_after(self.max_spec(), self.history@));
        }
    }

    /// A consistent copy of the contents at the moment of the call: the
    /// state after the complete prefix of appends performed so far.
    pub fn snapshot(&self) -> (v: Vec<Reading>)
        ensures
            v@ == self@,
            self.wf() ==> v@ == store_after(self.max_spec(), self.history()),
    {
        let mut out: Vec<Reading> = Vec::new();
        let mut i: usize = 0;
        while i < self.readings.len()
            invariant
                0 <= i <= self.readings.len(),
                out@ == self.readings@.take(i as int),
            decreases self.readings.len() - i,
        {
            out.push(self.readings[i]);
            proof {
                assert(out@ =~= self.readings@.take(i as int + 1));
            }
            i += 1;
        }
        proof {
            assert(out@ =~= self.readings@);
        }
        out
    }
}

/// What well-formedness means from outside: a well-formed store holds
/// exactly what its history of appends leaves retained.
pub proof fn lemma_wf_contents(s: ReadingStore)
    requires
        s.wf(),
    ensures
        s@ == store_after(s.max_spec(), s.history()),
{
}

/// Capacity law: whatever has been appended, the retained contents never
/// hold more than the bound.
pub proof fn lemma_store_after_len(max: int, appended: Seq<Reading>)
    requires
        max >= 0,
    ensures
        store_after(max, appended).len() <= max,
    decreases appended.len(),
{
    if appended.len() > 0 {
        lemma_store_after_len(max, appended.drop_last());
    }
}

/// FIFO law: the retained contents are exactly the most recent appends, in
/// insertion order; everything older has been evicted.
pub proof fn lemma_store_is_recent_suffix(max: int, appended: Seq<Reading>)
    requires
        max >= 0,
    ensures
        store_after(max, appended) == if appended.len() <= max {
            appended
        } else {
            appended.skip(appended.len() - max)
        },
    decreases appended.len(),
{
    if appended.len() == 0 {
        assert(store_after(max, appended) =~= appended);
    } else {
        let prev = appended.drop_last();
        lemma_store_is_recent_suffix(max, prev);
        lemma_store_after_len(max, prev);
        if appended.len() <= max {
            assert(store_after(max, prev).push(appended.last()) =~= appended);
        } else if prev.len() <= max {
            // the append that first crosses the bound
            assert(store_after(max, prev).push(appended.last()) =~= appended);
            assert(appended.skip(1) =~= appended.skip(appended.len() - max));
            assert(store_after(max, appended) =~= appended.skip(appended.len() - max));
        } else {
            let tail = prev.skip(prev.len() - max);
            assert(tail.push(appended.last()) =~= appended.skip(appended.len() - 1 - max));
            assert(tail.push(appended.last()).skip(1) =~= appended.skip(appended.len() - max));
        }
    }
}

/// Exact-order law: while the bound is never exceeded, the store holds the
/// appended sequence itself, in insertion order.
pub proof fn lemma_store_exact_within_bound(max: int, appended: Seq<Reading>)
    requires
        max >= 0,
        appended.len() <= max,
    ensures
        store_after(max, appended) == appended,
{
    lemma_store_is_recent_suffix(max, appended);
}

/// Eviction law: when an append overflows the bound, the element that
/// leaves is the head, i.e. the oldest reading still retained; the rest
/// keep their order.
pub proof fn lemma_eviction_is_fifo(max: int, s: Seq<Reading>, r: Reading)
    requires
        max >= 0,
        s.len() + 1 > max,
        s.len() > 0,
    ensures
        append_model(max, s, r) == s.skip(1).push(r),
{
    assert(s.push(r).skip(1) =~= s.skip(1).push(r));
}

/// Prefix law: the state a store reaches after its appends so far is the
/// state after a complete prefix of any longer total order of appends, so
/// a snapshot never shows a half-applied append.
pub proof fn lemma_snapshot_is_prefix_state(max: int, past: Seq<Reading>, future: Seq<Reading>)
    requires
        max >= 0,
    ensures
        exists|k: int|
            0 <= k <= (past + future).len() && store_after(max, past) == store_after(
                max,
                (past + future).take(k),
            ),
{
    assert((past + future).take(past.len() as int) =~= past);
    assert(0 <= past.len() as int <= (past + future).len() && store_after(max, past)
        == store_after(max, (past + future).take(past.len() as int)));
}

} // verus!
