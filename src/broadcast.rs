use vstd::prelude::*;

verus! {

/// One receiver's side of a channel: its buffered items, and the kernel task
/// to wake when an item arrives (registered when it found the buffer empty).
/// `live` turns false when the receiver is dropped.
pub struct Subscriber<T> {
    pub id: u64,
    pub live: bool,
    pub buffer: Vec<T>,
    pub waiter: Option<u64>,
}

/// The live subscribers of `s`, in order.
pub open spec fn live_subs<T>(s: Seq<Subscriber<T>>) -> Seq<Subscriber<T>>
    decreases s.len(),
{
    if s.len() == 0 {
        s
    } else if s.last().live {
        live_subs(s.drop_last()).push(s.last())
    } else {
        live_subs(s.drop_last())
    }
}

/// The tasks registered as waiters of `s`, in order.
pub open spec fn waiters<T>(s: Seq<Subscriber<T>>) -> Seq<u64>
    decreases s.len(),
{
    if s.len() == 0 {
        Seq::empty()
    } else {
        match s.last().waiter {
            Some(w) => waiters(s.drop_last()).push(w),
            None => waiters(s.drop_last()),
        }
    }
}

/// Number of items buffered over the subscriptions `s`.
pub open spec fn buffered_total<T>(s: Seq<Subscriber<T>>) -> nat
    decreases s.len(),
{
    if s.len() == 0 {
        0
    } else {
        buffered_total(s.drop_last()) + s.last().buffer@.len()
    }
}

proof fn lemma_buffered_update<T>(s: Seq<Subscriber<T>>, i: int, u: Subscriber<T>)
    requires
        0 <= i < s.len(),
    ensures
        buffered_total(s.update(i, u)) == buffered_total(s) - s[i].buffer@.len() + u.buffer@.len(),
    decreases s.len(),
{
    let t = s.update(i, u);
    if i == s.len() - 1 {
        assert(t.drop_last() =~= s.drop_last());
    } else {
        assert(t.drop_last() =~= s.drop_last().update(i, u));
        lemma_buffered_update(s.drop_last(), i, u);
    }
}

/// `u` is `s` with `item` appended to its buffer and its waiter woken.
pub open spec fn delivered<T>(u: Subscriber<T>, s: Subscriber<T>, item: T) -> bool {
    &&& u.id == s.id
    &&& u.live == s.live
    &&& u.buffer@ == s.buffer@.push(item)
    &&& u.waiter.is_none()
}

/// Whether `i` is the first subscription with id `id`.
pub open spec fn first_with_id<T>(s: Seq<Subscriber<T>>, id: u64, i: int) -> bool {
    &&& 0 <= i < s.len()
    &&& s[i].id == id
    &&& forall|j: int| 0 <= j < i ==> (#[trigger] s[j]).id != id
}

/// The first subscription with a given id is unique.
pub proof fn lemma_first_with_id_unique<T>(s: Seq<Subscriber<T>>, id: u64, i: int, j: int)
    requires
        first_with_id(s, id, i),
        first_with_id(s, id, j),
    ensures
        i == j,
{
    if i < j {
        assert(s[i].id != id);
    } else if j < i {
        assert(s[j].id != id);
    }
}

/// A receiver: names its subscription in the sender it came from.
pub struct Receiver {
    id: u64,
}

impl Receiver {
    pub closed spec fn id_spec(&self) -> u64 {
        self.id
    }

    pub fn id(&self) -> (r: u64)
        ensures
            r == self.id_spec(),
    {
        self.id
    }
}

/// The sending side of a broadcast channel: one subscription per receiver,
/// each with its own buffer. Dropped receivers are swept before each send.
pub struct Sender<T> {
    subs: Vec<Subscriber<T>>,
    next_id: u64,
}

impl<T: Copy> Sender<T> {
    pub closed spec fn subs_spec(&self) -> Seq<Subscriber<T>> {
        self.subs@
    }

    pub closed spec fn next_id_spec(&self) -> u64 {
        self.next_id
    }

    /// Number of items buffered over all subscriptions.
    pub closed spec fn buffered_spec(&self) -> nat {
        buffered_total(self.subs@)
    }

    /// Subscription ids are distinct and below the next one.
    pub open spec fn wf(&self) -> bool {
        forall|i: int|
            0 <= i < self.subs_spec().len() ==> (#[trigger] self.subs_spec()[i]).id
                < self.next_id_spec()
    }

    pub fn new() -> (r: Self)
        ensures
            r.wf(),
            r.subs_spec().len() == 0,
            r.next_id_spec() == 0,
    {
        Sender { subs: Vec::new(), next_id: 0 }
    }

    /// The id the next subscription gets.
    pub fn next_id(&self) -> (r: u64)
        ensures
            r == self.next_id_spec(),
    {
        self.next_id
    }

    /// Number of subscriptions kept, dead ones included until the next send.
    pub fn subscriptions(&self) -> (r: usize)
        ensures
            r == self.subs_spec().len(),
    {
        self.subs.len()
    }

    /// Adds a subscription with an empty buffer and returns its receiver.
    pub fn subscribe(&mut self) -> (r: Receiver)
        requires
            old(self).wf(),
            old(self).next_id_spec() < u64::MAX,
        ensures
            final(self).wf(),
            r.id_spec() == old(self).next_id_spec(),
            final(self).next_id_spec() == old(self).next_id_spec() + 1,
            final(self).subs_spec().len() == old(self).subs_spec().len() + 1,
            final(self).subs_spec().drop_last() == old(self).subs_spec(),
            final(self).subs_spec().last().id == r.id_spec(),
            final(self).subs_spec().last().live,
            final(self).subs_spec().last().buffer@.len() == 0,
            final(self).subs_spec().last().waiter.is_none(),
    {
        let id = self.next_id;
        self.subs.push(Subscriber { id, live: true, buffer: Vec::new(), waiter: None });
        self.next_id = id + 1;
        assert(self.subs@.drop_last() =~= old(self).subs@);
        Receiver { id }
    }

    /// Drops a receiver: its subscription is dead from now on.
    pub fn drop_receiver(&mut self, rx: Receiver)
        requires
            old(self).wf(),
        ensures
            final(self).wf(),
            final(self).next_id_spec() == old(self).next_id_spec(),
            final(self).subs_spec().len() == old(self).subs_spec().len(),
            forall|i: int|
                0 <= i < old(self).subs_spec().len() ==> {
                    let s = old(self).subs_spec()[i];
                    let u = #[trigger] final(self).subs_spec()[i];
                    &&& u.id == s.id
                    &&& u.live == (s.live && s.id != rx.id_spec())
                    &&& u.buffer == s.buffer
                    &&& u.waiter == s.waiter
                },
    {
        let mut i: usize = 0;
        while i < self.subs.len()
            invariant
                0 <= i <= self.subs@.len(),
                self.next_id == old(self).next_id,
                self.subs@.len() == old(self).subs@.len(),
                forall|j: int|
                    0 <= j < self.subs@.len() ==> {
                        let s = old(self).subs@[j];
                        let u = #[trigger] self.subs@[j];
                        &&& u.id == s.id
                        &&& u.live == if j < i {
                            s.live && s.id != rx.id
                        } else {
                            s.live
                        }
                        &&& u.buffer == s.buffer
                        &&& u.waiter == s.waiter
                    },
            decreases self.subs@.len() - i,
        {
            if self.subs[i].id == rx.id {
                let mut s = self.subs.remove(i);
                s.live = false;
                self.subs.insert(i, s);
            }
            i = i + 1;
        }
    }

    /// Removes the dead subscriptions.
    fn sweep(&mut self)
        requires
            old(self).wf(),
        ensures
            final(self).wf(),
            final(self).next_id_spec() == old(self).next_id_spec(),
            final(self).subs_spec() == live_subs(old(self).subs_spec()),
    {
        let mut rest: Vec<Subscriber<T>> = Vec::new();
        core::mem::swap(&mut rest, &mut self.subs);
        let ghost orig = rest@;
        assert(orig.len() == rest.len());
        let mut kept: Vec<Subscriber<T>> = Vec::new();
        let mut i: usize = 0;
        while rest.len() > 0
            invariant
                rest@ == orig.skip(i as int),
                i <= orig.len(),
                orig.len() <= usize::MAX,
                kept@ == live_subs(orig.take(i as int)),
                self.next_id == old(self).next_id,
                forall|j: int| 0 <= j < orig.len() ==> (#[trigger] orig[j]).id < self.next_id,
                forall|j: int| 0 <= j < kept@.len() ==> (#[trigger] kept@[j]).id < self.next_id,
            decreases rest@.len(),
        {
            let ghost before = kept@;
            let s = rest.remove(0);
            assert(orig.take(i + 1).drop_last() =~= orig.take(i as int));
            assert(orig.take(i + 1).last() == orig[i as int]);
            if s.live {
                kept.push(s);
            }
            assert forall|j: int| 0 <= j < kept@.len() implies (#[trigger] kept@[j]).id < self.next_id by {
                if j < before.len() {
                    assert(before[j].id < self.next_id);
                } else {
                    assert(orig[i as int].id < self.next_id);
                }
            }
            i = i + 1;
            assert(rest@ =~= orig.skip(i as int));
        }
        assert(orig.take(i as int) =~= orig);
        self.subs = kept;
    }

    /// Delivers `item` to every live receiver, after sweeping the dead ones,
    /// and returns the tasks to wake.
    pub fn send_all(&mut self, item: T) -> (r: Vec<u64>)
        requires
            old(self).wf(),
        ensures
            final(self).wf(),
            final(self).next_id_spec() == old(self).next_id_spec(),
            ({
                let live = live_subs(old(self).subs_spec());
                &&& final(self).subs_spec().len() == live.len()
                &&& forall|i: int|
                    0 <= i < live.len() ==> delivered(
                        #[trigger] final(self).subs_spec()[i],
                        live[i],
                        item,
                    )
                &&& r@ == waiters(live)
            }),
    {
        self.sweep();
        let ghost live = self.subs@;
        let mut woken: Vec<u64> = Vec::new();
        let mut i: usize = 0;
        while i < self.subs.len()
            invariant
                0 <= i <= self.subs@.len(),
                self.subs@.len() == live.len(),
                self.next_id == old(self).next_id,
                forall|j: int| 0 <= j < live.len() ==> (#[trigger] live[j]).id < self.next_id,
                forall|j: int| 0 <= j < i ==> delivered(#[trigger] self.subs@[j], live[j], item),
                forall|j: int| i <= j < live.len() ==> #[trigger] self.subs@[j] == live[j],
                woken@ == waiters(live.take(i as int)),
            decreases self.subs@.len() - i,
        {
            let mut s = self.subs.remove(i);
            let ghost s0 = s;
            assert(s0 == live[i as int]);
            s.buffer.push(item);
            match s.waiter {
                Some(w) => woken.push(w),
                None => {},
            }
            s.waiter = None;
            self.subs.insert(i, s);
            assert(live.take(i + 1).drop_last() =~= live.take(i as int));
            assert(live.take(i + 1).last() == live[i as int]);
            i = i + 1;
        }
        assert(live.take(i as int) =~= live);
        assert forall|j: int| 0 <= j < self.subs@.len() implies (#[trigger] self.subs@[j]).id < self.next_id by {
            assert(live[j].id < self.next_id);
        }
        woken
    }

    /// Delivers `item` to the one live receiver, if there is one, after
    /// sweeping the dead ones, and returns the task to wake. Meant for
    /// point-to-point use: at most one receiver may be live.
    pub fn send_one(&mut self, item: T) -> (r: Option<u64>)
        requires
            old(self).wf(),
            live_subs(old(self).subs_spec()).len() <= 1,
        ensures
            final(self).wf(),
            final(self).next_id_spec() == old(self).next_id_spec(),
            ({
                let live = live_subs(old(self).subs_spec());
                &&& final(self).subs_spec().len() == live.len()
                &&& live.len() == 1 ==> delivered(final(self).subs_spec()[0], live[0], item)
                    && r == live[0].waiter
                &&& live.len() == 0 ==> r.is_none()
            }),
    {
        self.sweep();
        if self.subs.len() == 0 {
            return None;
        }
        let mut s = self.subs.remove(0);
        s.buffer.push(item);
        let w = s.waiter;
        s.waiter = None;
        self.subs.insert(0, s);
        w
    }

    /// Takes every item buffered for the receiver with id `rx`, oldest first,
    /// and registers `waiter` to be woken by the next delivery.
    pub fn drain(&mut self, rx: u64, waiter: u64) -> (r: Vec<T>)
        requires
            old(self).wf(),
        ensures
            final(self).wf(),
            final(self).next_id_spec() == old(self).next_id_spec(),
            final(self).subs_spec().len() == old(self).subs_spec().len(),
            ({
                let old_subs = old(self).subs_spec();
                let new_subs = final(self).subs_spec();
                if exists|i: int| #[trigger] first_with_id(old_subs, rx, i) {
                    exists|i: int|
                        {
                            &&& #[trigger] first_with_id(old_subs, rx, i)
                            &&& r@ == old_subs[i].buffer@
                            &&& new_subs[i].buffer@.len() == 0
                            &&& new_subs[i].waiter == Some(waiter)
                            &&& new_subs[i].id == old_subs[i].id
                            &&& new_subs[i].live == old_subs[i].live
                            &&& forall|j: int| 0 <= j < old_subs.len() && j != i ==> #[trigger] new_subs[j] == old_subs[j]
                        }
                } else {
                    r@.len() == 0 && new_subs == old_subs
                }
            }),
    {
        let mut i: usize = 0;
        while i < self.subs.len() && self.subs[i].id != rx
            invariant
                *self == *old(self),
                0 <= i <= self.subs@.len(),
                forall|j: int| 0 <= j < i ==> (#[trigger] self.subs@[j]).id != rx,
            decreases self.subs@.len() - i,
        {
            i = i + 1;
        }
        if i == self.subs.len() {
            assert(!exists|j: int| #[trigger] first_with_id(self.subs@, rx, j));
            return Vec::new();
        }
        let ghost before = self.subs@;
        let mut s = self.subs.remove(i);
        let mut items: Vec<T> = Vec::new();
        core::mem::swap(&mut items, &mut s.buffer);
        s.waiter = Some(waiter);
        self.subs.insert(i, s);
        assert forall|j: int| 0 <= j < self.subs@.len() implies (#[trigger] self.subs@[j]).id
            < self.next_id by {
            assert(before[j].id < self.next_id);
        }
        assert(first_with_id(before, rx, i as int));
        items
    }

    /// Takes the oldest item buffered for the receiver with id `rx`. When there is none, registers
    /// `waiter` as the task to wake on the next delivery and returns `None`.
    pub fn poll_next(&mut self, rx: u64, waiter: u64) -> (r: Option<T>)
        requires
            old(self).wf(),
        ensures
            final(self).wf(),
            r is Some ==> final(self).buffered_spec() < old(self).buffered_spec(),
            final(self).next_id_spec() == old(self).next_id_spec(),
            final(self).subs_spec().len() == old(self).subs_spec().len(),
            ({
                let old_subs = old(self).subs_spec();
                let new_subs = final(self).subs_spec();
                if exists|i: int| 0 <= i < old_subs.len() && (#[trigger] old_subs[i]).id == rx {
                    exists|i: int|
                        {
                            &&& #[trigger] first_with_id(old_subs, rx, i)
                            &&& forall|j: int| 0 <= j < old_subs.len() && j != i ==> #[trigger] new_subs[j] == old_subs[j]
                            &&& new_subs[i].id == old_subs[i].id
                            &&& new_subs[i].live == old_subs[i].live
                            &&& if old_subs[i].buffer@.len() > 0 {
                                &&& r == Some(old_subs[i].buffer@[0])
                                &&& new_subs[i].buffer@ == old_subs[i].buffer@.drop_first()
                                &&& new_subs[i].waiter == old_subs[i].waiter
                            } else {
                                &&& r.is_none()
                                &&& new_subs[i].buffer@.len() == 0
                                &&& new_subs[i].waiter == Some(waiter)
                            }
                        }
                } else {
                    r.is_none() && new_subs == old_subs
                }
            }),
    {
        let mut i: usize = 0;
        while i < self.subs.len() && self.subs[i].id != rx
            invariant
                *self == *old(self),
                0 <= i <= self.subs@.len(),
                forall|j: int| 0 <= j < i ==> (#[trigger] self.subs@[j]).id != rx,
            decreases self.subs@.len() - i,
        {
            i = i + 1;
        }
        if i == self.subs.len() {
            assert(!exists|j: int| 0 <= j < self.subs@.len() && (#[trigger] self.subs@[j]).id == rx);
            return None;
        }
        let ghost before = self.subs@;
        let mut s = self.subs.remove(i);
        let r = if s.buffer.len() > 0 {
            Some(s.buffer.remove(0))
        } else {
            s.waiter = Some(waiter);
            None
        };
        let ghost s_new = s;
        self.subs.insert(i, s);
        assert(self.subs@ =~= before.update(i as int, s_new));
        proof { lemma_buffered_update(before, i as int, s_new); }
        assert forall|j: int| 0 <= j < self.subs@.len() implies (#[trigger] self.subs@[j]).id
            < self.next_id by {
            assert(before[j].id < self.next_id);
        }
        assert(first_with_id(before, rx, i as int));
        r
    }
}

/// A send on a channel whose receivers were all dropped is a no-op: no
/// subscription survives the sweep, so nothing is delivered and no task is
/// woken.
pub proof fn lemma_send_after_receivers_dropped<T>(s: Seq<Subscriber<T>>)
    requires
        forall|i: int| 0 <= i < s.len() ==> !(#[trigger] s[i]).live,
    ensures
        live_subs(s).len() == 0,
        waiters(live_subs(s)).len() == 0,
    decreases s.len(),
{
    if s.len() > 0 {
        assert(!s[s.len() - 1].live);
        let d = s.drop_last();
        assert forall|i: int| 0 <= i < d.len() implies !(#[trigger] d[i]).live by {
            assert(!s[i].live);
        }
        lemma_send_after_receivers_dropped(d);
    }
}

} // verus!
