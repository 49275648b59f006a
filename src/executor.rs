use vstd::prelude::*;

use crossbeam_queue::ArrayQueue;

verus! {

#[verifier::external_type_specification]
#[verifier::external_body]
#[verifier::reject_recursive_types(T)]
pub struct ExArrayQueue<T>(ArrayQueue<T>);

/// The ids a ready queue holds, oldest first.
pub uninterp spec fn queued_ids(q: ArrayQueue<u64>) -> Seq<u64>;

/// The capacity a ready queue was made with.
pub uninterp spec fn queue_capacity(q: ArrayQueue<u64>) -> nat;

/// Relies on `ArrayQueue::new`: an empty queue that holds at most `cap`
/// items. It panics on a zero capacity and on one too large for its
/// internal stamps, which `requires` leaves out.
#[verifier::external_body]
fn new_ready_queue(cap: usize) -> (r: ArrayQueue<u64>)
    requires
        0 < cap <= 4096,
    ensures
        queued_ids(r) == Seq::<u64>::empty(),
        queue_capacity(r) == cap,
{
    ArrayQueue::new(cap)
}

/// Relies on `ArrayQueue::push_mut`: appends `id` unless the queue already
/// holds as many items as its capacity, in which case it hands `id` back and
/// leaves the queue as it was.
#[verifier::external_body]
fn push_ready(q: &mut ArrayQueue<u64>, id: u64) -> (r: Result<(), u64>)
    ensures
        queue_capacity(*final(q)) == queue_capacity(*old(q)),
        r is Ok == (queue_capacity(*old(q)) > queued_ids(*old(q)).len()),
        r is Ok ==> queued_ids(*final(q)) == queued_ids(*old(q)).push(id),
        r is Err ==> r->Err_0 == id && queued_ids(*final(q)) == queued_ids(*old(q)),
{
    q.push_mut(id)
}

/// Relies on `ArrayQueue::pop_mut`: removes and returns the oldest item, or
/// returns `None` and leaves the queue as it was when it is empty.
#[verifier::external_body]
fn pop_ready(q: &mut ArrayQueue<u64>) -> (r: Option<u64>)
    ensures
        queue_capacity(*final(q)) == queue_capacity(*old(q)),
        queued_ids(*old(q)).len() == 0 ==> r.is_none() && queued_ids(*final(q)) == queued_ids(
            *old(q),
        ),
        queued_ids(*old(q)).len() > 0 ==> r == Some(queued_ids(*old(q))[0]) && queued_ids(*final(q))
            == queued_ids(*old(q)).drop_first(),
{
    q.pop_mut()
}

/// Relies on `ArrayQueue::is_empty`: whether the queue holds no item.
#[verifier::external_body]
fn ready_is_empty(q: &ArrayQueue<u64>) -> (r: bool)
    ensures
        r == (queued_ids(*q).len() == 0),
{
    q.is_empty()
}

/// Capacity of the executor's ready queue.
pub const READY_CAPACITY: usize = 256;

/// A kernel task's entry in the executor: its id, and whether it is being
/// polled. Its future is kept by the code that polls it, under the same id.
#[derive(Debug, Clone, Copy, PartialEq, Eq, Structural)]
pub struct KernelTask {
    pub id: u64,
    pub polling: bool,
}

/// Whether some entry of `tasks` has id `id`.
pub open spec fn has_task(tasks: Seq<KernelTask>, id: u64) -> bool {
    exists|i: int| 0 <= i < tasks.len() && (#[trigger] tasks[i]).id == id
}

/// The bookkeeping of the cooperative kernel-task executor: task ids, the
/// table of live tasks, and the bounded queue of ids that are ready to be
/// polled (a task's waker pushes its id).
pub struct KernelTaskExecutor {
    next_task_id: u64,
    tasks: Vec<KernelTask>,
    ready: ArrayQueue<u64>,
}

impl KernelTaskExecutor {
    pub closed spec fn next_id_spec(&self) -> u64 {
        self.next_task_id
    }

    pub closed spec fn tasks_spec(&self) -> Seq<KernelTask> {
        self.tasks@
    }

    pub closed spec fn ready_spec(&self) -> Seq<u64> {
        queued_ids(self.ready)
    }

    pub closed spec fn capacity_spec(&self) -> nat {
        queue_capacity(self.ready)
    }

    /// Task ids are distinct and below the next one.
    pub open spec fn wf(&self) -> bool {
        &&& forall|i: int|
            0 <= i < self.tasks_spec().len() ==> (#[trigger] self.tasks_spec()[i]).id
                < self.next_id_spec()
        &&& forall|i: int, j: int|
            0 <= i < j < self.tasks_spec().len() ==> (#[trigger] self.tasks_spec()[i]).id
                != (#[trigger] self.tasks_spec()[j]).id
        &&& self.capacity_spec() == READY_CAPACITY
        &&& self.ready_spec().len() <= READY_CAPACITY
    }

    pub fn new() -> (r: Self)
        ensures
            r.wf(),
            r.next_id_spec() == 0,
            r.tasks_spec().len() == 0,
            r.ready_spec().len() == 0,
    {
        KernelTaskExecutor { next_task_id: 0, tasks: Vec::new(), ready: new_ready_queue(READY_CAPACITY) }
    }

    /// The id the next spawned task gets.
    pub fn next_id(&self) -> (r: u64)
        ensures
            r == self.next_id_spec(),
    {
        self.next_task_id
    }

    /// Whether no task id is queued.
    pub fn is_idle(&self) -> (r: bool)
        ensures
            r == (self.ready_spec().len() == 0),
    {
        ready_is_empty(&self.ready)
    }

    /// Registers a new task and queues it to be polled. Returns its id, or
    /// `None` (nothing changed) when the ready queue is full.
    pub fn spawn(&mut self) -> (r: Option<u64>)
        requires
            old(self).wf(),
            old(self).next_id_spec() < u64::MAX,
        ensures
            final(self).wf(),
            old(self).ready_spec().len() < READY_CAPACITY ==> {
                &&& r == Some(old(self).next_id_spec())
                &&& final(self).next_id_spec() == old(self).next_id_spec() + 1
                &&& final(self).tasks_spec() == old(self).tasks_spec().push(
                    KernelTask { id: old(self).next_id_spec(), polling: false },
                )
                &&& final(self).ready_spec() == old(self).ready_spec().push(
                    old(self).next_id_spec(),
                )
            },
            old(self).ready_spec().len() >= READY_CAPACITY ==> r.is_none() && final(self).tasks_spec()
                == old(self).tasks_spec() && final(self).ready_spec() == old(self).ready_spec()
                && final(self).next_id_spec() == old(self).next_id_spec(),
    {
        let id = self.next_task_id;
        match push_ready(&mut self.ready, id) {
            Ok(()) => {
                let ghost before = self.tasks@;
                self.tasks.push(KernelTask { id, polling: false });
                self.next_task_id = id + 1;
                assert forall|i: int, j: int|
                    0 <= i < j < self.tasks@.len() implies (#[trigger] self.tasks@[i]).id
                    != (#[trigger] self.tasks@[j]).id by {
                    if j == before.len() {
                        assert(old(self).tasks_spec()[i].id < id);
                    } else {
                        assert(old(self).tasks_spec()[i].id != old(self).tasks_spec()[j].id);
                    }
                }
                assert forall|i: int| 0 <= i < self.tasks_spec().len() implies (#[trigger] self.tasks_spec()[i]).id < self.next_id_spec() by {
                    if i < before.len() {
                        assert(old(self).tasks_spec()[i].id < id);
                    }
                }
                Some(id)
            },
            Err(_) => {
                assert(self.tasks_spec() == old(self).tasks_spec());
                None
            },
        }
    }

    /// Queues task `id` to be polled (what its waker does). Returns false
    /// (nothing changed) when the ready queue is full.
    pub fn wake(&mut self, id: u64) -> (r: bool)
        requires
            old(self).wf(),
        ensures
            final(self).wf(),
            final(self).tasks_spec() == old(self).tasks_spec(),
            final(self).next_id_spec() == old(self).next_id_spec(),
            r == (old(self).ready_spec().len() < READY_CAPACITY),
            r ==> final(self).ready_spec() == old(self).ready_spec().push(id),
            !r ==> final(self).ready_spec() == old(self).ready_spec(),
    {
        let r = push_ready(&mut self.ready, id);
        assert(self.tasks_spec() == old(self).tasks_spec());
        r.is_ok()
    }

    fn find(&self, id: u64) -> (r: Option<usize>)
        ensures
            match r {
                Some(i) => i < self.tasks_spec().len() && self.tasks_spec()[i as int].id == id,
                None => !has_task(self.tasks_spec(), id),
            },
    {
        let mut i: usize = 0;
        while i < self.tasks.len()
            invariant
                0 <= i <= self.tasks@.len(),
                forall|j: int| 0 <= j < i ==> (#[trigger] self.tasks@[j]).id != id,
            decreases self.tasks@.len() - i,
        {
            if self.tasks[i].id == id {
                return Some(i);
            }
            i = i + 1;
        }
        None
    }

    /// Takes queued ids, oldest first, skipping those of tasks that have
    /// finished, and returns the first live one, now marked as being polled;
    /// `None` once the queue is drained.
    pub fn next_to_poll(&mut self) -> (r: Option<u64>)
        requires
            old(self).wf(),
            forall|i: int| 0 <= i < old(self).tasks_spec().len() ==> !(#[trigger] old(self).tasks_spec()[i]).polling,
        ensures
            final(self).wf(),
            final(self).next_id_spec() == old(self).next_id_spec(),
            r is Some ==> exists|k: int|
                {
                    &&& 0 <= k < old(self).ready_spec().len()
                    &&& old(self).ready_spec()[k] == r->Some_0
                    &&& forall|j: int|
                        0 <= j < k ==> !has_task(
                            old(self).tasks_spec(),
                            #[trigger] old(self).ready_spec()[j],
                        )
                    &&& has_task(old(self).tasks_spec(), r->Some_0)
                    &&& #[trigger] final(self).ready_spec() == old(self).ready_spec().skip(k + 1)
                    &&& final(self).tasks_spec().len() == old(self).tasks_spec().len()
                    &&& forall|i: int|
                        0 <= i < old(self).tasks_spec().len() ==> #[trigger] final(self).tasks_spec()[i] == (KernelTask {
                            polling: old(self).tasks_spec()[i].id == r->Some_0,
                            ..old(self).tasks_spec()[i]
                        })
                },
            r is None ==> {
                &&& forall|j: int|
                    0 <= j < old(self).ready_spec().len() ==> !has_task(
                        old(self).tasks_spec(),
                        #[trigger] old(self).ready_spec()[j],
                    )
                &&& final(self).ready_spec().len() == 0
                &&& final(self).tasks_spec() == old(self).tasks_spec()
            },
    {
        let ghost orig = self.ready_spec();
        let ghost mut k: int = 0;
        loop
            invariant
                self.wf(),
                old(self).wf(),
                orig == old(self).ready_spec(),
                forall|i: int| 0 <= i < old(self).tasks_spec().len() ==> !(#[trigger] old(self).tasks_spec()[i]).polling,
                self.tasks == old(self).tasks,
                self.tasks_spec() == old(self).tasks_spec(),
                self.next_task_id == old(self).next_task_id,
                0 <= k <= orig.len(),
                self.ready_spec() == orig.skip(k),
                forall|j: int| 0 <= j < k ==> !has_task(self.tasks_spec(), #[trigger] orig[j]),
            decreases orig.len() - k,
        {
            let ghost before = self.ready_spec();
            match pop_ready(&mut self.ready) {
                None => {
                    assert(orig.len() == k);
                    return None;
                },
                Some(id) => {
                    assert(orig[k] == id);
                    match self.find(id) {
                        Some(i) => {
                            self.tasks.set(i, KernelTask { id, polling: true });
                            assert(self.ready_spec() =~= orig.skip(k + 1));
                            assert forall|a: int, b: int|
                                0 <= a < b < self.tasks@.len() implies (#[trigger] self.tasks@[a]).id
                                != (#[trigger] self.tasks@[b]).id by {
                                assert(old(self).tasks_spec()[a].id != old(self).tasks_spec()[b].id);
                            }
                            assert forall|j: int| 0 <= j < old(self).tasks_spec().len() implies #[trigger] self.tasks_spec()[j] == (KernelTask {
                                polling: old(self).tasks_spec()[j].id == id,
                                ..old(self).tasks_spec()[j]
                            }) by {
                                if j != i {
                                    assert(old(self).tasks_spec()[j].id != old(self).tasks_spec()[i as int].id);
                                }
                            }
                            return Some(id);
                        },
                        None => {
                            proof {
                                k = k + 1;
                            }
                            assert(self.ready_spec() =~= orig.skip(k));
                        },
                    }
                },
            }
        }
    }

    /// Records the end of a poll of task `id`: a finished task leaves the
    /// table; a pending one waits for its waker.
    pub fn finish_poll(&mut self, id: u64, finished: bool)
        requires
            old(self).wf(),
        ensures
            final(self).wf(),
            final(self).ready_spec() == old(self).ready_spec(),
            final(self).next_id_spec() == old(self).next_id_spec(),
            has_task(old(self).tasks_spec(), id) ==> exists|i: int|
                0 <= i < old(self).tasks_spec().len() && (#[trigger] old(self).tasks_spec()[i]).id == id
                    && if finished {
                    final(self).tasks_spec() == old(self).tasks_spec().remove(i)
                } else {
                    final(self).tasks_spec() == old(self).tasks_spec().update(
                        i,
                        KernelTask { id, polling: false },
                    )
                },
            !has_task(old(self).tasks_spec(), id) ==> final(self).tasks_spec() == old(self).tasks_spec(),
    {
        match self.find(id) {
            Some(i) => {
                let ghost before = self.tasks@;
                if finished {
                    self.tasks.remove(i);
                    assert forall|a: int, b: int|
                        0 <= a < b < self.tasks@.len() implies (#[trigger] self.tasks@[a]).id
                        != (#[trigger] self.tasks@[b]).id by {
                        let aa = if a < i { a } else { a + 1 };
                        let bb = if b < i { b } else { b + 1 };
                        assert(old(self).tasks_spec()[aa].id != old(self).tasks_spec()[bb].id);
                    }
                    assert forall|a: int| 0 <= a < self.tasks@.len() implies (#[trigger] self.tasks@[a]).id < self.next_task_id by {
                        let aa = if a < i { a } else { a + 1 };
                        assert(old(self).tasks_spec()[aa].id < self.next_task_id);
                    }
                } else {
                    self.tasks.set(i, KernelTask { id, polling: false });
                    assert forall|a: int, b: int|
                        0 <= a < b < self.tasks@.len() implies (#[trigger] self.tasks@[a]).id
                        != (#[trigger] self.tasks@[b]).id by {
                        assert(old(self).tasks_spec()[a].id != old(self).tasks_spec()[b].id);
                    }
                }
            },
            None => {},
        }
    }
}

} // verus!
