use vstd::prelude::*;

verus! {

/// The kernel tasks to wake once the tick counter reaches `at`.
pub struct Deadline {
    pub at: u64,
    pub waiters: Vec<u64>,
}

/// Whether no two deadlines share a tick.
pub open spec fn ticks_distinct(d: Seq<Deadline>) -> bool {
    forall|i: int, j: int| 0 <= i < j < d.len() ==> (#[trigger] d[i]).at != (#[trigger] d[j]).at
}

/// Whether some deadline is at tick `at`.
pub open spec fn has_deadline(d: Seq<Deadline>, at: u64) -> bool {
    exists|i: int| 0 <= i < d.len() && (#[trigger] d[i]).at == at
}

/// The index of the deadline at tick `at`, when there is one.
pub open spec fn deadline_index(d: Seq<Deadline>, at: u64) -> int {
    choose|i: int| 0 <= i < d.len() && (#[trigger] d[i]).at == at
}

proof fn lemma_deadline_index(d: Seq<Deadline>, at: u64, i: int)
    requires
        ticks_distinct(d),
        0 <= i < d.len(),
        d[i].at == at,
    ensures
        has_deadline(d, at),
        deadline_index(d, at) == i,
{
    let j = deadline_index(d, at);
    if j < i {
        assert(d[j].at != d[i].at);
    } else if i < j {
        assert(d[i].at != d[j].at);
    }
}

/// The tasks waiting on the deadline at tick `at`; none when there is no
/// such deadline.
pub open spec fn fired_at(d: Seq<Deadline>, at: u64) -> Seq<u64> {
    if has_deadline(d, at) {
        d[deadline_index(d, at)].waiters@
    } else {
        Seq::empty()
    }
}

/// The deadlines left once the one at tick `at`, if any, has fired.
pub open spec fn after_firing(d: Seq<Deadline>, at: u64) -> Seq<Deadline> {
    if has_deadline(d, at) {
        d.remove(deadline_index(d, at))
    } else {
        d
    }
}

/// The tick counter, counting APIC timer slices, and the deadlines waiting
/// on it.
pub struct SliceTimer {
    slice_count: u64,
    deadlines: Vec<Deadline>,
}

impl SliceTimer {
    pub closed spec fn count_spec(&self) -> u64 {
        self.slice_count
    }

    pub closed spec fn deadlines_spec(&self) -> Seq<Deadline> {
        self.deadlines@
    }

    pub open spec fn wf(&self) -> bool {
        ticks_distinct(self.deadlines_spec())
    }

    pub fn new() -> (r: Self)
        ensures
            r.wf(),
            r.count_spec() == 0,
            r.deadlines_spec().len() == 0,
    {
        SliceTimer { slice_count: 0, deadlines: Vec::new() }
    }

    pub fn slice_count(&self) -> (r: u64)
        ensures
            r == self.count_spec(),
    {
        self.slice_count
    }

    fn find(&self, at: u64) -> (r: Option<usize>)
        ensures
            match r {
                Some(i) => i < self.deadlines_spec().len() && self.deadlines_spec()[i as int].at == at,
                None => !has_deadline(self.deadlines_spec(), at),
            },
    {
        let mut i: usize = 0;
        while i < self.deadlines.len()
            invariant
                0 <= i <= self.deadlines@.len(),
                forall|j: int| 0 <= j < i ==> (#[trigger] self.deadlines@[j]).at != at,
            decreases self.deadlines@.len() - i,
        {
            if self.deadlines[i].at == at {
                return Some(i);
            }
            i = i + 1;
        }
        None
    }

    /// Counts one more slice, removes the deadline at the new count, if
    /// any, and returns the tasks it was holding, to be woken.
    pub fn inc_slice(&mut self) -> (r: Vec<u64>)
        requires
            old(self).wf(),
            old(self).count_spec() < u64::MAX,
        ensures
            final(self).wf(),
            final(self).count_spec() == old(self).count_spec() + 1,
            !has_deadline(final(self).deadlines_spec(), final(self).count_spec()),
            r@ == fired_at(old(self).deadlines_spec(), final(self).count_spec()),
            final(self).deadlines_spec() == after_firing(
                old(self).deadlines_spec(),
                final(self).count_spec(),
            ),
            if has_deadline(old(self).deadlines_spec(), final(self).count_spec()) {
                exists|i: int|
                    0 <= i < old(self).deadlines_spec().len() && (#[trigger] old(
                        self,
                    ).deadlines_spec()[i]).at == final(self).count_spec() && r@ == old(
                        self,
                    ).deadlines_spec()[i].waiters@ && final(self).deadlines_spec() == old(
                        self,
                    ).deadlines_spec().remove(i)
            } else {
                &&& r@.len() == 0
                &&& final(self).deadlines_spec() == old(self).deadlines_spec()
            },
    {
        self.slice_count = self.slice_count + 1;
        let count = self.slice_count;
        match self.find(count) {
            Some(i) => {
                let ghost before = self.deadlines@;
                proof {
                    let j = deadline_index(before, count);
                    assert(before[i as int].at == count);
                    if j != i {
                        if j < i {
                            assert(before[j].at != before[i as int].at);
                        } else {
                            assert(before[i as int].at != before[j].at);
                        }
                    }
                }
                let d = self.deadlines.remove(i);
                assert forall|j: int, k: int|
                    0 <= j < k < self.deadlines@.len() implies (#[trigger] self.deadlines@[j]).at
                    != (#[trigger] self.deadlines@[k]).at by {
                    let jj = if j < i { j } else { j + 1 };
                    let kk = if k < i { k } else { k + 1 };
                    assert(before[jj].at != before[kk].at);
                }
                assert(!has_deadline(self.deadlines@, count)) by {
                    if has_deadline(self.deadlines@, count) {
                        let j = choose|j: int| 0 <= j < self.deadlines@.len() && (#[trigger] self.deadlines@[j]).at == count;
                        let jj = if j < i { j } else { j + 1 };
                        if jj < i {
                            assert(before[jj].at != before[i as int].at);
                        } else {
                            assert(before[i as int].at != before[jj].at);
                        }
                    }
                }
                d.waiters
            },
            None => Vec::new(),
        }
    }

    /// Registers `waiter` to be woken `slice` slices from now. A zero-slice
    /// sleep registers nothing.
    pub fn sleep(&mut self, slice: u64, waiter: u64)
        requires
            old(self).wf(),
            old(self).count_spec() + slice <= u64::MAX,
        ensures
            final(self).wf(),
            final(self).count_spec() == old(self).count_spec(),
            ({
                let at = (old(self).count_spec() + slice) as u64;
                let d = old(self).deadlines_spec();
                let n = final(self).deadlines_spec();
                if slice == 0 {
                    n == d
                } else if has_deadline(d, at) {
                    exists|i: int|
                        0 <= i < d.len() && (#[trigger] d[i]).at == at && n.len() == d.len()
                            && n[i].at == at && n[i].waiters@ == d[i].waiters@.push(waiter)
                            && forall|j: int| 0 <= j < d.len() && j != i ==> #[trigger] n[j] == d[j]
                } else {
                    &&& n.len() == d.len() + 1
                    &&& n.drop_last() == d
                    &&& n.last().at == at
                    &&& n.last().waiters@ == seq![waiter]
                }
            }),
            slice > 0 ==> fired_at(final(self).deadlines_spec(), (old(self).count_spec() + slice) as u64)
                == fired_at(old(self).deadlines_spec(), (old(self).count_spec() + slice) as u64).push(
                waiter,
            ),
    {
        if slice == 0 {
            return;
        }
        let at = self.slice_count + slice;
        match self.find(at) {
            Some(i) => {
                let ghost before = self.deadlines@;
                let mut d = self.deadlines.remove(i);
                d.waiters.push(waiter);
                self.deadlines.insert(i, d);
                assert forall|j: int, k: int|
                    0 <= j < k < self.deadlines@.len() implies (#[trigger] self.deadlines@[j]).at
                    != (#[trigger] self.deadlines@[k]).at by {
                    assert(before[j].at != before[k].at);
                }
                assert forall|j: int| 0 <= j < before.len() && j != i implies #[trigger] self.deadlines@[j] == before[j] by {}
                proof {
                    lemma_deadline_index(before, at, i as int);
                    lemma_deadline_index(self.deadlines@, at, i as int);
                }
            },
            None => {
                let mut waiters: Vec<u64> = Vec::new();
                waiters.push(waiter);
                let ghost before = self.deadlines@;
                self.deadlines.push(Deadline { at, waiters });
                assert(self.deadlines@.drop_last() =~= before);
                assert forall|j: int, k: int|
                    0 <= j < k < self.deadlines@.len() implies (#[trigger] self.deadlines@[j]).at
                    != (#[trigger] self.deadlines@[k]).at by {
                    if k == before.len() {
                        assert(before[j].at != at);
                    } else {
                        assert(before[j].at != before[k].at);
                    }
                }
                proof {
                    lemma_deadline_index(self.deadlines@, at, before.len() as int);
                }
            },
        }
    }
}

} // verus!
