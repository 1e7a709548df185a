//! Which bands have come back in the current cycle, so that a frame is
//! composed only once every band has returned, each exactly once.
use vstd::prelude::*;

verus! {

/// Why a returned band could not be recorded.
#[derive(Clone, Copy, Debug, PartialEq, Eq, Structural)]
pub enum LedgerError {
    /// No band has this index.
    UnknownBand,
    /// The band already came back in this cycle.
    Duplicate,
}

/// Number of `true` entries.
pub open spec fn count_true(s: Seq<bool>) -> nat
    decreases s.len(),
{
    if s.len() == 0 {
        0
    } else {
        count_true(s.drop_last()) + if s.last() { 1nat } else { 0nat }
    }
}

proof fn lemma_count_update(s: Seq<bool>, i: int)
    requires
        0 <= i < s.len(),
        !s[i],
    ensures
        count_true(s.update(i, true)) == count_true(s) + 1,
    decreases s.len(),
{
    let t = s.update(i, true);
    if i < s.len() - 1 {
        assert(t.drop_last() =~= s.drop_last().update(i, true));
        lemma_count_update(s.drop_last(), i);
    } else {
        assert(t.drop_last() =~= s.drop_last());
    }
}

proof fn lemma_count_bound(s: Seq<bool>)
    ensures
        count_true(s) <= s.len(),
        count_true(s) == s.len() <==> forall|i: int| 0 <= i < s.len() ==> #[trigger] s[i],
    decreases s.len(),
{
    if s.len() > 0 {
        lemma_count_bound(s.drop_last());
        if count_true(s) == s.len() {
            assert forall|i: int| 0 <= i < s.len() implies #[trigger] s[i] by {
                if i < s.len() - 1 {
                    assert(s.drop_last()[i] == s[i]);
                }
            }
        }
        if forall|i: int| 0 <= i < s.len() ==> #[trigger] s[i] {
            assert forall|i: int| 0 <= i < s.drop_last().len() implies #[trigger] s.drop_last()[i] by {
                assert(s[i]);
            }
        }
    }
}

proof fn lemma_count_none(n: nat)
    ensures
        count_true(Seq::new(n, |i: int| false)) == 0,
    decreases n,
{
    if n > 0 {
        assert(Seq::new(n, |i: int| false).drop_last() =~= Seq::new((n - 1) as nat, |i: int| false));
        lemma_count_none((n - 1) as nat);
    }
}

/// The bands returned in the current cycle, one flag per band.
pub struct CycleLedger {
    returned: Vec<bool>,
    count: usize,
}

impl CycleLedger {
    /// One flag per band: whether it has returned in this cycle.
    pub closed spec fn model(&self) -> Seq<bool> {
        self.returned@
    }

    pub closed spec fn wf(&self) -> bool {
        self.count == count_true(self.returned@)
    }

    /// A ledger for `n` bands, none returned.
    pub fn new(n: usize) -> (r: CycleLedger)
        ensures
            r.wf(),
            r.model() == Seq::new(n as nat, |i: int| false),
    {
        let mut returned: Vec<bool> = Vec::new();
        let mut i: usize = 0;
        while i < n
            invariant
                i <= n,
                returned@ == Seq::new(i as nat, |j: int| false),
            decreases n - i,
        {
            returned.push(false);
            i = i + 1;
            assert(returned@ =~= Seq::new(i as nat, |j: int| false));
        }
        proof {
            lemma_count_none(n as nat);
        }
        CycleLedger { returned, count: 0 }
    }

    /// Number of bands.
    pub fn bands(&self) -> (r: usize)
        ensures
            r == self.model().len(),
    {
        self.returned.len()
    }

    /// Whether `band` has returned in this cycle.
    pub fn has_returned(&self, band: usize) -> (r: bool)
        ensures
            r == (band < self.model().len() && self.model()[band as int]),
    {
        band < self.returned.len() && self.returned[band]
    }

    /// Records that `band` came back; refuses an unknown band and a second
    /// return of one band within a cycle.
    pub fn record(&mut self, band: usize) -> (r: Result<(), LedgerError>)
        requires
            old(self).wf(),
        ensures
            final(self).wf(),
            band >= old(self).model().len() ==> r == Err::<(), LedgerError>(LedgerError::UnknownBand)
                && final(self).model() == old(self).model(),
            band < old(self).model().len() && old(self).model()[band as int] ==> r == Err::<(), LedgerError>(LedgerError::Duplicate)
                && final(self).model() == old(self).model(),
            band < old(self).model().len() && !old(self).model()[band as int] ==> r is Ok
                && final(self).model() == old(self).model().update(band as int, true),
    {
        if band >= self.returned.len() {
            return Err(LedgerError::UnknownBand);
        }
        if self.returned[band] {
            return Err(LedgerError::Duplicate);
        }
        proof {
            lemma_count_update(self.returned@, band as int);
            lemma_count_bound(self.returned@.update(band as int, true));
        }
        self.returned.set(band, true);
        self.count = self.count + 1;
        Ok(())
    }

    /// Whether every band has returned in this cycle.
    pub fn is_complete(&self) -> (r: bool)
        requires
            self.wf(),
        ensures
            r == forall|i: int| 0 <= i < self.model().len() ==> #[trigger] self.model()[i],
    {
        proof {
            lemma_count_bound(self.returned@);
        }
        let r = self.count == self.returned.len();
        assert(self.model() == self.returned@);
        assert(r == forall|i: int| 0 <= i < self.returned@.len() ==> #[trigger] self.returned@[i]);
        assert(r == forall|i: int| 0 <= i < self.model().len() ==> #[trigger] self.model()[i]);
        r
    }

    /// Starts a new cycle: no band returned.
    pub fn start_cycle(&mut self)
        requires
            old(self).wf(),
        ensures
            final(self).wf(),
            final(self).model() == Seq::new(old(self).model().len(), |i: int| false),
    {
        let n = self.returned.len();
        let mut i: usize = 0;
        while i < n
            invariant
                i <= n,
                n == old(self).model().len(),
                self.returned@.len() == n,
                forall|j: int| 0 <= j < i ==> !(#[trigger] self.returned@[j]),
            decreases n - i,
        {
            self.returned.set(i, false);
            i = i + 1;
        }
        assert(self.returned@ =~= Seq::new(n as nat, |i: int| false));
        proof {
            lemma_count_none(n as nat);
        }
        self.count = 0;
    }
}

} // verus!
