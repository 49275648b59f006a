use vstd::prelude::*;

use crate::frame::{
    TaskFrame, KERNEL_CODE_SELECTOR, USER_CODE_SELECTOR, USER_DATA_SELECTOR,
};
use crate::memory::{
    align_up, align_up_spec, is_mapped, pages_free, range_canonical, range_mappings, Mapping, PageTableWrapper,
    PAGE_SIZE, USER_DATA_FLAGS,
};
use crate::resource::{BoxedResource, ResourceHandle};
use crate::syscall::{SyscallResponse, SYSCALL_BUFFER_PAGES, SYSCALL_IN_ADDR, SYSCALL_OUT_ADDR};

verus! {

/// Id of the idle task.
pub const IDLE_ID: u64 = 0;

/// Id of the first user task; later ones count up from it.
pub const USER_START_ID: u64 = 1024;

/// Number of priority classes.
pub const PRIORITY_CLASSES: usize = 256;

/// Lowest address of a user task's heap.
pub const USER_HEAP_BASE: u64 = 0x1000_0000_0000;

/// Top of a user task's stack.
pub const USER_STACK_TOP: u64 = 0x1889_0000_0000;

/// End of the lower canonical half, where user memory stops.
pub const USER_SPACE_END: u64 = 0x8000_0000_0000;

/// Number of pages of a user task's stack.
pub const USER_STACK_PAGES: u64 = 10;

/// A priority class; a lower value is served first.
#[derive(Debug, Clone, Copy, PartialEq, Eq, Structural)]
pub struct Priority(pub u8);

impl Priority {
    pub fn user() -> (r: Priority)
        ensures
            r.0 == 128,
    {
        Priority(128)
    }

    pub fn idle() -> (r: Priority)
        ensures
            r.0 == 255,
    {
        Priority(255)
    }
}

/// Identity of a task.
#[derive(Debug, Clone)]
pub struct TaskInfo {
    pub id: u64,
    pub name: String,
}

/// The address space a task runs in: its own, or the kernel's.
pub enum TaskPageTable {
    User(PageTableWrapper),
    Kernel,
}

/// Work to do right after a resumed task's address space is loaded and
/// before its frame is restored: copy `data` to the task's memory at
/// `copy_to` (nothing when `data` is empty), then write `response` to its
/// syscall response buffer.
pub struct PreScheduling {
    pub copy_to: u64,
    pub data: Vec<u8>,
    pub response: SyscallResponse,
}

/// A task: its identity, class, heap top, address space, saved frame (absent
/// while it executes), open resources (handle `i` names `resources[i]`), and
/// the work to run before it next resumes.
pub struct Task {
    pub info: TaskInfo,
    pub priority: Priority,
    pub heap_top: u64,
    pub page_table: TaskPageTable,
    pub frame: Option<TaskFrame>,
    pub resources: Vec<BoxedResource>,
    pub pre_scheduling: Option<PreScheduling>,
}

impl Task {
    /// The shape every task keeps: the idle task runs in the kernel's address
    /// space at idle priority; a user task has an address space of its own and
    /// a page-aligned heap top at or above the heap base.
    pub open spec fn wf(&self) -> bool {
        if self.info.id == IDLE_ID {
            &&& self.page_table is Kernel
            &&& self.priority.0 == 255
        } else {
            &&& self.page_table matches TaskPageTable::User(pt) && pt.wf() && pt.is_user_spec()
            &&& self.heap_top % PAGE_SIZE == 0
            &&& self.heap_top >= USER_HEAP_BASE
            &&& self.priority.0 != 255
        }
    }

    /// The root frame of the task's address space.
    pub open spec fn root(&self, kernel_root: u64) -> u64 {
        match self.page_table {
            TaskPageTable::User(pt) => pt.root_spec(),
            TaskPageTable::Kernel => kernel_root,
        }
    }

    /// The idle task: halts in a loop in kernel mode on the kernel stack.
    /// `entry` is the address of its loop; `kernel_stack_top` the top of the
    /// kernel stack.
    pub fn idle(entry: u64, kernel_stack_top: u64) -> (r: Task)
        ensures
            r.wf(),
            r.info.id == IDLE_ID,
            r.frame matches Some(f) && f == TaskFrame::new_entry_spec(
                entry,
                kernel_stack_top,
                KERNEL_CODE_SELECTOR,
                KERNEL_CODE_SELECTOR,
                0,
            ),
            r.pre_scheduling.is_none(),
            r.resources@.len() == 0,
    {
        let frame = TaskFrame::new_entry(
            entry,
            kernel_stack_top,
            KERNEL_CODE_SELECTOR,
            KERNEL_CODE_SELECTOR,
            0,
        );
        Task {
            info: TaskInfo { id: IDLE_ID, name: idle_name() },
            priority: Priority::idle(),
            heap_top: 0,
            page_table: TaskPageTable::Kernel,
            frame: Some(frame),
            resources: Vec::new(),
            pre_scheduling: None,
        }
    }
}

fn idle_name() -> (r: String)
    ensures
        r@ == "idle"@,
{
    "idle".to_owned()
}

/// A pended task, waiting to be resumed through the handle returned when
/// it was pended. `handle_live` turns false when that handle is dropped.
pub struct PendingEntry {
    pub id: u64,
    pub task: Task,
    pub handle_live: bool,
}

/// The right to resume one pended task. Dropping it (`TaskManager::drop_handle`)
/// without resuming makes the task a zombie, reclaimed at the next schedule.
pub struct PendingTaskHandle {
    id: u64,
}

impl PendingTaskHandle {
    pub closed spec fn id_spec(&self) -> u64 {
        self.id
    }

    pub fn id(&self) -> (r: u64)
        ensures
            r == self.id_spec(),
    {
        self.id
    }
}

/// The scheduler state: the running task, one FIFO queue per priority class
/// (index = class), the pended tasks, the kernel's address space, and the
/// root of the address space currently loaded in the CPU.
pub struct TaskManager {
    next_task_id: u64,
    running: Option<Task>,
    ready: Vec<Vec<Task>>,
    pending: Vec<PendingEntry>,
    kernel: PageTableWrapper,
    loaded_root: u64,
}

/// What holds of a task queued in class `p`.
pub open spec fn queued_ok(t: Task, p: int) -> bool {
    t.wf() && t.frame.is_some() && t.priority.0 == p
}

/// Every queued task is well formed, has a saved frame, and sits in the
/// queue of its own class.
pub open spec fn ready_ok(ready: Seq<Seq<Task>>) -> bool {
    forall|p: int, i: int|
        0 <= p < ready.len() && 0 <= i < ready[p].len() ==> #[trigger] queued_ok(ready[p][i], p)
}

/// What holds of a pended task.
pub open spec fn pended_ok(e: PendingEntry) -> bool {
    e.task.wf() && e.task.frame.is_some() && e.task.info.id != IDLE_ID && e.id == e.task.info.id
}

pub open spec fn pending_ok(pending: Seq<PendingEntry>) -> bool {
    forall|i: int| 0 <= i < pending.len() ==> #[trigger] pended_ok(pending[i])
}

/// Whether the idle task is queued.
pub open spec fn idle_queued(ready: Seq<Seq<Task>>) -> bool {
    exists|p: int, i: int|
        0 <= p < ready.len() && 0 <= i < ready[p].len() && (#[trigger] ready[p][i]).info.id
            == IDLE_ID
}

/// Whether some queue holds a task.
pub open spec fn has_ready(ready: Seq<Seq<Task>>) -> bool {
    exists|p: int| 0 <= p < ready.len() && ready[p].len() > 0
}

/// Whether `p` is the first class with a queued task.
pub open spec fn is_first_ready(ready: Seq<Seq<Task>>, p: int) -> bool {
    &&& 0 <= p < ready.len()
    &&& ready[p].len() > 0
    &&& forall|q: int| 0 <= q < p ==> (#[trigger] ready[q]).len() == 0
}

/// Number of queued tasks.
pub open spec fn ready_count(ready: Seq<Seq<Task>>) -> nat
    decreases ready.len(),
{
    if ready.len() == 0 {
        0
    } else {
        ready_count(ready.drop_last()) + ready.last().len()
    }
}

impl TaskManager {
    pub closed spec fn next_id_spec(&self) -> u64 {
        self.next_task_id
    }

    pub closed spec fn running_spec(&self) -> Option<Task> {
        self.running
    }

    pub closed spec fn ready_spec(&self) -> Seq<Seq<Task>> {
        Seq::new(self.ready@.len(), |p: int| self.ready@[p]@)
    }

    pub closed spec fn pending_spec(&self) -> Seq<PendingEntry> {
        self.pending@
    }

    pub closed spec fn kernel_root(&self) -> u64 {
        self.kernel.root_spec()
    }

    /// Root of the address space the CPU runs on.
    pub closed spec fn loaded_root_spec(&self) -> u64 {
        self.loaded_root
    }

    /// Whether the idle task is running or queued.
    pub open spec fn idle_present(&self) -> bool {
        ||| self.running_spec() matches Some(t) && t.info.id == IDLE_ID
        ||| idle_queued(self.ready_spec())
    }

    /// The scheduler's invariant: every queued or pended task is well formed
    /// and holds a saved frame in its own class, the loaded address space
    /// is the running task's, and the idle task is always running or queued.
    pub open spec fn wf(&self) -> bool {
        &&& self.ready_spec().len() == PRIORITY_CLASSES
        &&& ready_ok(self.ready_spec())
        &&& pending_ok(self.pending_spec())
        &&& self.running_spec() matches Some(t) ==> t.wf() && self.loaded_root_spec() == t.root(
            self.kernel_root(),
        )
        &&& self.idle_present()
        &&& self.next_id_spec() >= USER_START_ID
        &&& self.kernel_wf()
        &&& store_ok(self.ready_spec(), self.pending_spec(), self.next_id_spec())
        &&& self.running_spec() matches Some(t) ==> running_id_ok(
            t.info.id,
            self.ready_spec(),
            self.pending_spec(),
            self.next_id_spec(),
        )
    }

    pub closed spec fn kernel_wf(&self) -> bool {
        self.kernel.wf() && !self.kernel.is_user_spec()
    }

    /// A manager holding only the idle task, queued, with the kernel's
    /// address space loaded.
    pub fn new(kernel: PageTableWrapper, idle_entry: u64, kernel_stack_top: u64) -> (r: Self)
        requires
            kernel.wf(),
            !kernel.is_user_spec(),
        ensures
            r.wf(),
            r.running_spec().is_none(),
            r.next_id_spec() == USER_START_ID,
            r.pending_spec().len() == 0,
            r.kernel_root() == kernel.root_spec(),
            r.loaded_root_spec() == kernel.root_spec(),
            ready_count(r.ready_spec()) == 1,
    {
        let mut ready: Vec<Vec<Task>> = Vec::new();
        while ready.len() < PRIORITY_CLASSES
            invariant
                ready.len() <= PRIORITY_CLASSES,
                forall|p: int| 0 <= p < ready.len() ==> (#[trigger] ready@[p])@.len() == 0,
            decreases PRIORITY_CLASSES - ready.len(),
        {
            ready.push(Vec::new());
        }
        let loaded_root = kernel.root_frame();
        let mut tm = TaskManager {
            next_task_id: USER_START_ID,
            running: None,
            ready,
            pending: Vec::new(),
            kernel,
            loaded_root,
        };
        assert(forall|p: int| 0 <= p < tm.ready_spec().len() ==> (#[trigger] tm.ready_spec()[p]).len() == 0);
        proof { lemma_ready_count_zero(tm.ready_spec()); }
        let idle = Task::idle(idle_entry, kernel_stack_top);
        let ghost idle_task = idle;
        tm.add_to_ready(idle);
        assert(tm.ready_spec()[255][0] == idle_task);
        assert(tm.idle_present());
        assert forall|p: int, i: int|
            0 <= p < tm.ready_spec().len() && 0 <= i < tm.ready_spec()[p].len() implies #[trigger] queued_ok(tm.ready_spec()[p][i], p) by {
            assert(p == 255 && i == 0);
        }
        tm
    }

    /// Appends `task` to the queue of its class.
    fn add_to_ready(&mut self, task: Task)
        requires
            old(self).ready_spec().len() == PRIORITY_CLASSES,
        ensures
            final(self).ready_spec() == old(self).ready_spec().update(
                task.priority.0 as int,
                old(self).ready_spec()[task.priority.0 as int].push(task),
            ),
            final(self).running == old(self).running,
            final(self).pending == old(self).pending,
            final(self).kernel == old(self).kernel,
            final(self).loaded_root == old(self).loaded_root,
            final(self).next_task_id == old(self).next_task_id,
            ready_count(final(self).ready_spec()) == ready_count(old(self).ready_spec()) + 1,
    {
        let p = task.priority.0 as usize;
        let ghost t = task;
        let mut q = self.ready.remove(p);
        q.push(task);
        self.ready.insert(p, q);
        assert(self.ready_spec() =~= old(self).ready_spec().update(
            p as int,
            old(self).ready_spec()[p as int].push(t),
        ));
        proof { lemma_ready_count_update(old(self).ready_spec(), p as int, old(self).ready_spec()[p as int].push(t)); }
    }
}

proof fn lemma_ready_count_zero(r: Seq<Seq<Task>>)
    requires
        forall|p: int| 0 <= p < r.len() ==> (#[trigger] r[p]).len() == 0,
    ensures
        ready_count(r) == 0,
    decreases r.len(),
{
    if r.len() > 0 {
        lemma_ready_count_zero(r.drop_last());
    }
}

proof fn lemma_ready_count_update(r: Seq<Seq<Task>>, p: int, q: Seq<Task>)
    requires
        0 <= p < r.len(),
    ensures
        ready_count(r.update(p, q)) == ready_count(r) - r[p].len() + q.len(),
    decreases r.len(),
{
    let u = r.update(p, q);
    if p == r.len() - 1 {
        assert(u.drop_last() =~= r.drop_last());
    } else {
        assert(u.drop_last() =~= r.drop_last().update(p, q));
        lemma_ready_count_update(r.drop_last(), p, q);
    }
}

proof fn lemma_enqueue(r: Seq<Seq<Task>>, t: Task)
    requires
        ready_ok(r),
        r.len() == PRIORITY_CLASSES,
        t.wf(),
        t.frame.is_some(),
    ensures
        ready_ok(r.update(t.priority.0 as int, r[t.priority.0 as int].push(t))),
        idle_queued(r) ==> idle_queued(r.update(t.priority.0 as int, r[t.priority.0 as int].push(t))),
        t.info.id == IDLE_ID ==> idle_queued(r.update(t.priority.0 as int, r[t.priority.0 as int].push(t))),
{
    let p = t.priority.0 as int;
    let u = r.update(p, r[p].push(t));
    assert forall|q: int, i: int| 0 <= q < u.len() && 0 <= i < u[q].len() implies #[trigger] queued_ok(u[q][i], q) by {
        if q == p && i == r[p].len() {
        } else {
            assert(u[q][i] == r[q][i]);
            assert(queued_ok(r[q][i], q));
        }
    }
    if idle_queued(r) {
        let (q, i) = choose|q: int, i: int| 0 <= q < r.len() && 0 <= i < r[q].len() && (#[trigger] r[q][i]).info.id == IDLE_ID;
        assert(u[q][i] == r[q][i]);
    }
    if t.info.id == IDLE_ID {
        assert(u[p][r[p].len() as int] == t);
    }
}

proof fn lemma_dequeue(r: Seq<Seq<Task>>, p: int)
    requires
        ready_ok(r),
        0 <= p < r.len(),
        r[p].len() > 0,
    ensures
        ready_ok(r.update(p, r[p].drop_first())),
        idle_queued(r) && r[p][0].info.id != IDLE_ID ==> idle_queued(r.update(p, r[p].drop_first())),
        ready_count(r.update(p, r[p].drop_first())) + 1 == ready_count(r),
{
    let u = r.update(p, r[p].drop_first());
    assert forall|q: int, i: int| 0 <= q < u.len() && 0 <= i < u[q].len() implies #[trigger] queued_ok(u[q][i], q) by {
        if q == p {
            assert(u[q][i] == r[q][i + 1]);
            assert(queued_ok(r[q][i + 1], q));
        } else {
            assert(u[q][i] == r[q][i]);
            assert(queued_ok(r[q][i], q));
        }
    }
    if idle_queued(r) && r[p][0].info.id != IDLE_ID {
        let (q, i) = choose|q: int, i: int| 0 <= q < r.len() && 0 <= i < r[q].len() && (#[trigger] r[q][i]).info.id == IDLE_ID;
        if q == p {
            assert(u[q][i - 1] == r[q][i]);
        } else {
            assert(u[q][i] == r[q][i]);
        }
    }
    lemma_ready_count_update(r, p, r[p].drop_first());
}

proof fn lemma_has_ready(r: Seq<Seq<Task>>)
    requires
        idle_queued(r),
    ensures
        has_ready(r),
{
    let (q, i) = choose|q: int, i: int| 0 <= q < r.len() && 0 <= i < r[q].len() && (#[trigger] r[q][i]).info.id == IDLE_ID;
    assert(r[q].len() > 0);
}

/// The pended entries whose handle is still held, in order.
pub open spec fn live_entries(s: Seq<PendingEntry>) -> Seq<PendingEntry>
    decreases s.len(),
{
    if s.len() == 0 {
        s
    } else if s[0].handle_live {
        seq![s[0]] + live_entries(s.skip(1))
    } else {
        live_entries(s.skip(1))
    }
}

/// The tasks of the pended entries whose handle was dropped, in order.
pub open spec fn zombie_tasks(s: Seq<PendingEntry>) -> Seq<Task>
    decreases s.len(),
{
    if s.len() == 0 {
        Seq::empty()
    } else if s[0].handle_live {
        zombie_tasks(s.skip(1))
    } else {
        seq![s[0].task] + zombie_tasks(s.skip(1))
    }
}

/// A task as it is while it executes: its frame and its pre-scheduling work
/// taken out.
pub open spec fn executing(t: Task) -> Task {
    Task { frame: None, pre_scheduling: None, ..t }
}

/// A task with its frame saved back.
pub open spec fn with_frame(t: Task, f: TaskFrame) -> Task {
    Task { frame: Some(f), ..t }
}

/// Queues `t` at the back of its class.
pub open spec fn enqueue(r: Seq<Seq<Task>>, t: Task) -> Seq<Seq<Task>> {
    r.update(t.priority.0 as int, r[t.priority.0 as int].push(t))
}

/// Whether a pended entry has id `id`.
pub open spec fn is_pending(s: Seq<PendingEntry>, id: u64) -> bool {
    exists|i: int| 0 <= i < s.len() && (#[trigger] s[i]).id == id
}

/// Whether `i` is the first pended entry with id `id`.
pub open spec fn is_first_pending(s: Seq<PendingEntry>, id: u64, i: int) -> bool {
    &&& 0 <= i < s.len()
    &&& s[i].id == id
    &&& forall|j: int| 0 <= j < i ==> (#[trigger] s[j]).id != id
}

/// What one pass of the scheduler hands to the code that resumes the task:
/// the frame to restore, the root of the address space that is loaded (and
/// whether it was just switched to), the work to run before restoring, and
/// the zombie tasks reclaimed in this pass.
pub struct Scheduled {
    pub frame: TaskFrame,
    pub root: u64,
    pub switched: bool,
    pub pre_scheduling: Option<PreScheduling>,
    pub reclaimed: Vec<Task>,
}

fn split_zombies(pending: Vec<PendingEntry>) -> (r: (Vec<PendingEntry>, Vec<Task>))
    requires
        pending_ok(pending@),
    ensures
        r.0@ == live_entries(pending@),
        r.1@ == zombie_tasks(pending@),
        pending_ok(r.0@),
{
    let mut rest = pending;
    let mut kept: Vec<PendingEntry> = Vec::new();
    let mut dead: Vec<Task> = Vec::new();
    while rest.len() > 0
        invariant
            live_entries(pending@) == kept@ + live_entries(rest@),
            zombie_tasks(pending@) == dead@ + zombie_tasks(rest@),
            pending_ok(rest@),
            pending_ok(kept@),
        decreases rest@.len(),
    {
        let ghost before = rest@;
        let e = rest.remove(0);
        assert(rest@ =~= before.skip(1));
        assert(pended_ok(before[0]));
        if e.handle_live {
            let ghost k = kept@;
            kept.push(e);
            assert(kept@ + live_entries(rest@) =~= k + (seq![before[0]] + live_entries(before.skip(1))));
            assert forall|i: int| 0 <= i < kept@.len() implies #[trigger] pended_ok(kept@[i]) by {
                if i < k.len() {
                    assert(pended_ok(k[i]));
                }
            }
        } else {
            let ghost d = dead@;
            dead.push(e.task);
            assert(dead@ + zombie_tasks(rest@) =~= d + (seq![before[0].task] + zombie_tasks(before.skip(1))));
        }
        assert forall|i: int| 0 <= i < rest@.len() implies #[trigger] pended_ok(rest@[i]) by {
            assert(pended_ok(before[i + 1]));
        }
    }
    assert(kept@ + live_entries(rest@) =~= kept@);
    assert(dead@ + zombie_tasks(rest@) =~= dead@);
    (kept, dead)
}

impl TaskManager {
    fn root_of(&self, task: &Task) -> (r: u64)
        ensures
            r == task.root(self.kernel_root()),
    {
        match &task.page_table {
            TaskPageTable::User(pt) => pt.root_frame(),
            TaskPageTable::Kernel => self.kernel.root_frame(),
        }
    }

    /// Removes and returns the oldest task of the first non-empty class.
    fn take_one_ready(&mut self) -> (r: (usize, Task))
        requires
            old(self).wf(),
            old(self).running_spec().is_none(),
        ensures
            is_first_ready(old(self).ready_spec(), r.0 as int),
            r.1 == old(self).ready_spec()[r.0 as int][0],
            final(self).ready_spec() == old(self).ready_spec().update(
                r.0 as int,
                old(self).ready_spec()[r.0 as int].drop_first(),
            ),
            final(self).running == old(self).running,
            final(self).pending == old(self).pending,
            final(self).kernel == old(self).kernel,
            final(self).loaded_root == old(self).loaded_root,
            final(self).next_task_id == old(self).next_task_id,
    {
        proof { lemma_has_ready(self.ready_spec()); }
        let mut p: usize = 0;
        while p < PRIORITY_CLASSES && self.ready[p].len() == 0
            invariant
                self.wf(),
                self.running_spec().is_none(),
                *self == *old(self),
                0 <= p <= PRIORITY_CLASSES,
                forall|q: int| 0 <= q < p ==> (#[trigger] self.ready_spec()[q]).len() == 0,
            decreases PRIORITY_CLASSES - p,
        {
            p = p + 1;
        }
        if p == PRIORITY_CLASSES {
            proof {
                let q = choose|q: int| 0 <= q < self.ready_spec().len() && self.ready_spec()[q].len() > 0;
                assert(self.ready_spec()[q].len() == 0);
            }
        }
        assert(self.ready_spec()[p as int].len() > 0);
        let mut q = self.ready.remove(p);
        let task = q.remove(0);
        self.ready.insert(p, q);
        assert(self.ready_spec() =~= old(self).ready_spec().update(
            p as int,
            old(self).ready_spec()[p as int].drop_first(),
        ));
        (p, task)
    }

    /// Reclaims every pended task whose handle was dropped, and returns them.
    fn cleanup_zombies(&mut self) -> (r: Vec<Task>)
        requires
            old(self).wf(),
        ensures
            final(self).wf(),
            final(self).pending_spec() == live_entries(old(self).pending_spec()),
            r@ == zombie_tasks(old(self).pending_spec()),
            final(self).running == old(self).running,
            final(self).ready == old(self).ready,
            final(self).kernel == old(self).kernel,
            final(self).loaded_root == old(self).loaded_root,
            final(self).next_task_id == old(self).next_task_id,
    {
        let mut pending: Vec<PendingEntry> = Vec::new();
        core::mem::swap(&mut pending, &mut self.pending);
        let ghost old_pending = pending@;
        let (kept, dead) = split_zombies(pending);
        self.pending = kept;
        proof {
            lemma_ids_live(self.ready_spec(), old_pending, self.next_task_id);
        }
        dead
    }

    /// One scheduling pass. Reclaims zombies; if no task is running, takes
    /// the oldest task of the first non-empty class and loads its address
    /// space; then takes the running task's saved frame and pre-scheduling
    /// work out, to be run and restored by the caller.
    pub fn schedule(&mut self) -> (r: Scheduled)
        requires
            old(self).wf(),
            old(self).running_spec() matches Some(t) ==> t.frame.is_some(),
        ensures
            final(self).wf(),
            final(self).pending_spec() == live_entries(old(self).pending_spec()),
            r.reclaimed@ == zombie_tasks(old(self).pending_spec()),
            forall|k: int|
                0 <= k < r.reclaimed@.len() ==> {
                    let id = (#[trigger] r.reclaimed@[k]).info.id;
                    &&& !is_pending(final(self).pending_spec(), id)
                    &&& !in_ready(final(self).ready_spec(), id)
                    &&& final(self).running_spec().unwrap().info.id != id
                },
            final(self).next_id_spec() == old(self).next_id_spec(),
            final(self).kernel_root() == old(self).kernel_root(),
            r.root == final(self).loaded_root_spec(),
            final(self).running_spec() matches Some(t) && r.root == t.root(final(self).kernel_root()),
            match old(self).running_spec() {
                Some(t) => {
                    &&& !r.switched
                    &&& final(self).running_spec() == Some(executing(t))
                    &&& Some(r.frame) == t.frame
                    &&& r.pre_scheduling == t.pre_scheduling
                    &&& final(self).ready_spec() == old(self).ready_spec()
                    &&& r.root == old(self).loaded_root_spec()
                },
                None => exists|p: int|
                    {
                        let t = old(self).ready_spec()[p][0];
                        &&& #[trigger] is_first_ready(old(self).ready_spec(), p)
                        &&& r.switched
                        &&& final(self).running_spec() == Some(executing(t))
                        &&& Some(r.frame) == t.frame
                        &&& r.pre_scheduling == t.pre_scheduling
                        &&& final(self).ready_spec() == old(self).ready_spec().update(
                            p,
                            old(self).ready_spec()[p].drop_first(),
                        )
                    },
            },
    {
        let reclaimed = self.cleanup_zombies();
        let mut switched = false;
        let ghost mid = self.ready_spec();
        proof {
            lemma_zombies_gone(old(self).ready_spec(), old(self).pending_spec(), old(self).next_task_id);
        }
        if self.running.is_none() {
            let (p, task) = self.take_one_ready();
            proof {
                lemma_dequeue(mid, p as int);
                lemma_ids_dequeue(mid, self.pending_spec(), self.next_task_id, p as int);
                assert(queued_ok(mid[p as int][0], p as int));
            }
            self.loaded_root = self.root_of(&task);
            self.running = Some(task);
            switched = true;
            assert(is_first_ready(old(self).ready_spec(), p as int));
        }
        let mut task = self.running.take().unwrap();
        assert(self.loaded_root == task.root(self.kernel_root()));
        let frame = task.frame.take().unwrap();
        let pre_scheduling = task.pre_scheduling.take();
        let root = self.loaded_root;
        self.running = Some(task);
        assert(self.idle_present());
        proof {
            let z = zombie_tasks(old(self).pending_spec());
            let or = old(self).ready_spec();
            let op = old(self).pending_spec();
            assert forall|k: int| 0 <= k < z.len() implies {
                let id = (#[trigger] z[k]).info.id;
                &&& !is_pending(self.pending_spec(), id)
                &&& !in_ready(self.ready_spec(), id)
                &&& self.running_spec().unwrap().info.id != id
            } by {
                let id = z[k].info.id;
                assert(is_pending(op, id));
                if in_ready(or, id) {
                    let (p, i) = choose|p: int, i: int|
                        0 <= p < or.len() && 0 <= i < or[p].len() && (#[trigger] or[p][i]).info.id == id;
                    assert(!is_pending(op, or[p][i].info.id));
                }
                let rid = self.running_spec().unwrap().info.id;
                if rid == id {
                    match old(self).running_spec() {
                        Some(t) => {
                            assert(running_id_ok(t.info.id, or, op, old(self).next_task_id));
                        },
                        None => {
                            assert(in_ready(or, rid));
                        },
                    }
                }
                if in_ready(self.ready_spec(), id) {
                    assert(in_ready(mid, id));
                }
            }
        }
        Scheduled { frame, root, switched, pre_scheduling, reclaimed }
    }
}

impl TaskManager {
    /// Whether some task is queued.
    fn any_ready(&self) -> (r: bool)
        requires
            self.ready_spec().len() == PRIORITY_CLASSES,
        ensures
            r == has_ready(self.ready_spec()),
    {
        let mut p: usize = 0;
        while p < PRIORITY_CLASSES && self.ready[p].len() == 0
            invariant
                self.ready_spec().len() == PRIORITY_CLASSES,
                0 <= p <= PRIORITY_CLASSES,
                forall|q: int| 0 <= q < p ==> (#[trigger] self.ready_spec()[q]).len() == 0,
            decreases PRIORITY_CLASSES - p,
        {
            p = p + 1;
        }
        if p < PRIORITY_CLASSES {
            assert(self.ready_spec()[p as int].len() > 0);
            true
        } else {
            false
        }
    }

    /// Moves the running task, whose frame is saved, to the back of its
    /// class's queue. Nothing happens when no other task is queued.
    pub fn yield_current(&mut self)
        requires
            old(self).wf(),
            old(self).running_spec() matches Some(t) && t.frame.is_some(),
        ensures
            final(self).wf(),
            final(self).pending_spec() == old(self).pending_spec(),
            final(self).next_id_spec() == old(self).next_id_spec(),
            final(self).kernel_root() == old(self).kernel_root(),
            final(self).loaded_root_spec() == old(self).loaded_root_spec(),
            if has_ready(old(self).ready_spec()) {
                &&& final(self).running_spec().is_none()
                &&& final(self).ready_spec() == enqueue(
                    old(self).ready_spec(),
                    old(self).running_spec().unwrap(),
                )
            } else {
                &&& final(self).running_spec() == old(self).running_spec()
                &&& final(self).ready_spec() == old(self).ready_spec()
            },
    {
        if self.any_ready() {
            let task = self.running.take().unwrap();
            proof { lemma_enqueue(self.ready_spec(), task); }
            self.add_to_ready(task);
        }
    }

    /// Saves `frame` into the running task, coming back from it through an
    /// interrupt; with `yield_task` (a timer tick), the task then yields.
    pub fn put_back(&mut self, frame: TaskFrame, yield_task: bool)
        requires
            old(self).wf(),
            old(self).running_spec() matches Some(t) && t.frame.is_none() && (frame.is_user_spec()
                || t.info.id == IDLE_ID),
        ensures
            final(self).wf(),
            final(self).pending_spec() == old(self).pending_spec(),
            final(self).next_id_spec() == old(self).next_id_spec(),
            final(self).kernel_root() == old(self).kernel_root(),
            final(self).loaded_root_spec() == old(self).loaded_root_spec(),
            ({
                let t = with_frame(old(self).running_spec().unwrap(), frame);
                if yield_task && has_ready(old(self).ready_spec()) {
                    &&& final(self).running_spec().is_none()
                    &&& final(self).ready_spec() == enqueue(old(self).ready_spec(), t)
                } else {
                    &&& final(self).running_spec() == Some(t)
                    &&& final(self).ready_spec() == old(self).ready_spec()
                }
            }),
    {
        let mut task = self.running.take().unwrap();
        task.frame = Some(frame);
        self.running = Some(task);
        assert(self.idle_present());
        if yield_task {
            self.yield_current();
        }
    }

    /// Kills the running task. The kernel's address space is loaded first;
    /// the frames the task's address space was issued are returned, to be
    /// given back to the frame allocator only after that switch.
    pub fn drop_current(&mut self) -> (r: Vec<u64>)
        requires
            old(self).wf(),
            old(self).running_spec() matches Some(t) && t.info.id != IDLE_ID,
        ensures
            final(self).wf(),
            final(self).loaded_root_spec() == final(self).kernel_root(),
            final(self).running_spec().is_none(),
            final(self).ready_spec() == old(self).ready_spec(),
            final(self).pending_spec() == old(self).pending_spec(),
            final(self).next_id_spec() == old(self).next_id_spec(),
            final(self).kernel_root() == old(self).kernel_root(),
            old(self).running_spec() matches Some(t) && t.page_table matches TaskPageTable::User(pt)
                && r@ == pt.allocated_spec(),
    {
        self.loaded_root = self.kernel.root_frame();
        let task = self.running.take().unwrap();
        task.into_released_frames()
    }

    /// Suspends the running task until it is resumed through the returned
    /// handle. The kernel's address space is loaded.
    pub fn pend_current(&mut self) -> (r: PendingTaskHandle)
        requires
            old(self).wf(),
            old(self).running_spec() matches Some(t) && t.info.id != IDLE_ID && t.frame.is_some(),
        ensures
            final(self).wf(),
            final(self).loaded_root_spec() == final(self).kernel_root(),
            final(self).running_spec().is_none(),
            final(self).ready_spec() == old(self).ready_spec(),
            final(self).pending_spec() == old(self).pending_spec().push(
                PendingEntry {
                    id: old(self).running_spec().unwrap().info.id,
                    task: old(self).running_spec().unwrap(),
                    handle_live: true,
                },
            ),
            r.id_spec() == old(self).running_spec().unwrap().info.id,
            final(self).next_id_spec() == old(self).next_id_spec(),
            final(self).kernel_root() == old(self).kernel_root(),
    {
        self.loaded_root = self.kernel.root_frame();
        let task = self.running.take().unwrap();
        let id = task.info.id;
        let ghost old_pending = self.pending@;
        self.pending.push(PendingEntry { id, task, handle_live: true });
        assert forall|i: int| 0 <= i < self.pending@.len() implies #[trigger] pended_ok(self.pending@[i]) by {
            if i < old_pending.len() {
                assert(pended_ok(old_pending[i]));
            }
        }
        PendingTaskHandle { id }
    }

    /// Drops a handle without resuming its task, which turns into a zombie.
    pub fn drop_handle(&mut self, handle: PendingTaskHandle)
        requires
            old(self).wf(),
        ensures
            final(self).wf(),
            final(self).running_spec() == old(self).running_spec(),
            final(self).ready_spec() == old(self).ready_spec(),
            final(self).next_id_spec() == old(self).next_id_spec(),
            final(self).kernel_root() == old(self).kernel_root(),
            final(self).loaded_root_spec() == old(self).loaded_root_spec(),
            final(self).pending_spec().len() == old(self).pending_spec().len(),
            forall|i: int|
                0 <= i < old(self).pending_spec().len() ==> {
                    let e = old(self).pending_spec()[i];
                    #[trigger] final(self).pending_spec()[i] == PendingEntry {
                        handle_live: e.handle_live && e.id != handle.id_spec(),
                        ..e
                    }
                },
    {
        let mut rest: Vec<PendingEntry> = Vec::new();
        core::mem::swap(&mut rest, &mut self.pending);
        let ghost orig = rest@;
        let mut out: Vec<PendingEntry> = Vec::new();
        while rest.len() > 0
            invariant
                rest@ == orig.skip(out@.len() as int),
                out@.len() <= orig.len(),
                pending_ok(orig),
                forall|i: int|
                    0 <= i < out@.len() ==> {
                        let e = orig[i];
                        #[trigger] out@[i] == PendingEntry {
                            handle_live: e.handle_live && e.id != handle.id,
                            ..e
                        }
                    },
            decreases rest@.len(),
        {
            let ghost o = out@;
            let ghost before = rest@;
            let mut e = rest.remove(0);
            if e.id == handle.id {
                e.handle_live = false;
            }
            out.push(e);
            assert(orig[o.len() as int] == before[0]);
            assert(rest@ =~= orig.skip(out@.len() as int));
        }
        self.pending = out;
        assert forall|i: int| 0 <= i < self.pending@.len() implies #[trigger] pended_ok(self.pending@[i]) by {
            assert(pended_ok(orig[i]));
        }
    }
}

impl Task {
    /// Gives up the task, returning the frames its own address space owned
    /// (none for the idle task, which runs in the kernel's).
    pub fn into_released_frames(self) -> (r: Vec<u64>)
        ensures
            match self.page_table {
                TaskPageTable::User(pt) => r@ == pt.allocated_spec(),
                TaskPageTable::Kernel => r@.len() == 0,
            },
    {
        match self.page_table {
            TaskPageTable::User(pt) => pt.into_allocated(),
            TaskPageTable::Kernel => Vec::new(),
        }
    }
}

/// Outcome of a heap extension.
pub enum HeapExtension {
    /// The heap now reaches the requested top (or already did).
    Extended,
    /// The task was killed; these frames go back to the frame allocator.
    Killed(Vec<u64>),
}

/// The mappings that give the pages from `first` on the frames `frames`,
/// one each, with user data flags.
pub open spec fn fresh_mappings(first: int, frames: Seq<u64>) -> Seq<Mapping> {
    range_mappings(first, frames, USER_DATA_FLAGS)
}

/// The mappings of the two syscall buffers on `frames`: the request pages
/// first, then the response pages.
pub open spec fn buffer_mappings(frames: Seq<u64>) -> Seq<Mapping> {
    fresh_mappings((SYSCALL_IN_ADDR / PAGE_SIZE) as int, frames.take(SYSCALL_BUFFER_PAGES as int))
        + fresh_mappings((SYSCALL_OUT_ADDR / PAGE_SIZE) as int, frames.skip(SYSCALL_BUFFER_PAGES as int))
}

/// Number of pages between the heap top and the requested top rounded up.
pub open spec fn heap_pages_spec(heap_top: u64, top: u64) -> int {
    let target = align_up_spec(top as int);
    if target <= u64::MAX && target > heap_top {
        (target - heap_top) / (PAGE_SIZE as int)
    } else {
        0
    }
}

impl TaskManager {
    /// Maps `count` pages from page `first` on the first `count` frames of
    /// `frames`, with user data flags.
    fn map_fresh(pt: &mut PageTableWrapper, first: u64, frames: &Vec<u64>, count: usize)
        requires
            old(pt).wf(),
            old(pt).is_user_spec(),
            count <= frames@.len(),
            first + count <= u64::MAX,
            pages_free(old(pt).mappings_spec(), first as int, first + count),
            range_canonical(first as int, first + count),
        ensures
            final(pt).wf(),
            final(pt).is_user_spec(),
            final(pt).root_spec() == old(pt).root_spec(),
            final(pt).mappings_spec() == old(pt).mappings_spec() + fresh_mappings(
                first as int,
                frames@.take(count as int),
            ),
            final(pt).allocated_spec() == old(pt).allocated_spec() + frames@.take(count as int),
    {
        pt.map_range(first, frames, count, USER_DATA_FLAGS);
    }

    /// Whether no page from `first` up to (not including) `first + count`
    /// is mapped in `pt`.
    fn range_free(pt: &PageTableWrapper, first: u64, count: u64) -> (r: bool)
        requires
            first + count <= u64::MAX,
        ensures
            r == pages_free(pt.mappings_spec(), first as int, first + count),
    {
        let mut k: u64 = 0;
        while k < count
            invariant
                k <= count,
                first + count <= u64::MAX,
                pages_free(pt.mappings_spec(), first as int, first + k),
            decreases count - k,
        {
            if pt.is_page_mapped(first + k) {
                return false;
            }
            k = k + 1;
        }
        true
    }

    /// Whether the pages extending the running user task's heap to `top`
    /// would map are all unmapped.
    pub fn heap_range_is_free(&self, top: u64) -> (r: bool)
        requires
            self.wf(),
            self.running_spec() matches Some(t) && t.info.id != IDLE_ID,
        ensures
            r == heap_range_free(self.running_spec().unwrap(), top),
    {
        let needed = self.heap_pages_needed(top);
        match &self.running {
            Some(t) => match align_up(top) {
                Some(target) => {
                    if target <= USER_SPACE_END && target > t.heap_top {
                        let first = t.heap_top / PAGE_SIZE;
                        match &t.page_table {
                            TaskPageTable::User(pt) => Self::range_free(pt, first, needed),
                            TaskPageTable::Kernel => true,
                        }
                    } else {
                        true
                    }
                },
                None => true,
            },
            None => true,
        }
    }

    /// How many frames extending the running task's heap to `top` takes:
    /// the pages from its heap top up to `top` rounded up to a page.
    pub fn heap_pages_needed(&self, top: u64) -> (r: u64)
        requires
            self.running_spec().is_some(),
        ensures
            r == heap_pages_spec(self.running_spec().unwrap().heap_top, top),
    {
        let heap_top = match &self.running {
            Some(t) => t.heap_top,
            None => 0,
        };
        match align_up(top) {
            Some(target) => if target > heap_top {
                (target - heap_top) / PAGE_SIZE
            } else {
                0
            },
            None => 0,
        }
    }
}

/// `u` is `t` with its heap grown to `target`: the pages from the old heap
/// top on are mapped on `frames`, which the address space now owns.
pub open spec fn heap_extended(u: Task, t: Task, target: int, frames: Seq<u64>) -> bool {
    &&& u.heap_top == target
    &&& u.info == t.info
    &&& u.frame == t.frame
    &&& u.resources == t.resources
    &&& u.priority == t.priority
    &&& u.pre_scheduling == t.pre_scheduling
    &&& match (u.page_table, t.page_table) {
        (TaskPageTable::User(upt), TaskPageTable::User(pt)) => {
            &&& upt.root_spec() == pt.root_spec()
            &&& upt.mappings_spec() == pt.mappings_spec() + fresh_mappings(
                (t.heap_top / PAGE_SIZE) as int,
                frames,
            )
            &&& upt.allocated_spec() == pt.allocated_spec() + frames
        },
        _ => false,
    }
}

/// Whether extending the heap of `t` to `top` with `frames` succeeds: the
/// rounded top is within the address space, and either not above the heap
/// top, or the frames cover every new page and none of those is mapped.
pub open spec fn heap_extension_succeeds(t: Task, top: u64, frames: Seq<u64>) -> bool {
    let target = align_up_spec(top as int);
    let first = t.heap_top / PAGE_SIZE;
    let needed = heap_pages_spec(t.heap_top, top);
    target <= u64::MAX && (target <= t.heap_top || (target <= USER_SPACE_END && frames.len()
        == needed))
}

/// Whether the pages an extension of the heap of `t` to `top` would map are
/// all unmapped (mapping one twice is a kernel error).
pub open spec fn heap_range_free(t: Task, top: u64) -> bool {
    let target = align_up_spec(top as int);
    let first = t.heap_top / PAGE_SIZE;
    let needed = heap_pages_spec(t.heap_top, top);
    target <= USER_SPACE_END && target > t.heap_top ==> pages_free(
        t.page_table->User_0.mappings_spec(),
        first as int,
        first + needed,
    )
}

impl TaskManager {
    /// Extends the running user task's heap to `top` rounded up to a page.
    /// `frames` are the frames the frame allocator handed out for it, asked
    /// for one at a time up to `heap_pages_needed(top)` and fewer when it ran
    /// out. A top at or below the heap top changes nothing. When the
    /// allocator ran out or the rounded top passes the end of user space,
    /// the task is killed. The pages to map must be unmapped.
    pub fn extend_current_heap(&mut self, top: u64, frames: &Vec<u64>) -> (r: HeapExtension)
        requires
            old(self).wf(),
            old(self).running_spec() matches Some(t) && t.info.id != IDLE_ID,
            frames@.len() <= heap_pages_spec(old(self).running_spec().unwrap().heap_top, top),
            heap_range_free(old(self).running_spec().unwrap(), top),
        ensures
            final(self).wf(),
            final(self).ready_spec() == old(self).ready_spec(),
            final(self).pending_spec() == old(self).pending_spec(),
            final(self).next_id_spec() == old(self).next_id_spec(),
            final(self).kernel_root() == old(self).kernel_root(),
            final(self).running_spec() is Some ==> final(self).running_spec().unwrap().heap_top
                >= old(self).running_spec().unwrap().heap_top
                && final(self).running_spec().unwrap().heap_top % PAGE_SIZE == 0,
            (r is Extended) == heap_extension_succeeds(
                old(self).running_spec().unwrap(),
                top,
                frames@,
            ),
            ({
                let t = old(self).running_spec().unwrap();
                let target = align_up_spec(top as int);
                let needed = heap_pages_spec(t.heap_top, top);
                let pt = t.page_table->User_0;
                let first = t.heap_top / PAGE_SIZE;
                if target <= u64::MAX && target <= t.heap_top {
                    &&& r is Extended
                    &&& final(self).running_spec() == old(self).running_spec()
                    &&& final(self).loaded_root_spec() == old(self).loaded_root_spec()
                } else if target <= USER_SPACE_END && frames@.len() == needed {
                    &&& r is Extended
                    &&& final(self).loaded_root_spec() == old(self).loaded_root_spec()
                    &&& final(self).running_spec() is Some
                    &&& heap_extended(final(self).running_spec().unwrap(), t, target, frames@)
                } else {
                    &&& r matches HeapExtension::Killed(released) && released@ == pt.allocated_spec()
                        + frames@
                    &&& final(self).running_spec().is_none()
                    &&& final(self).loaded_root_spec() == final(self).kernel_root()
                }
            }),
    {
        let needed = self.heap_pages_needed(top);
        let target = align_up(top);
        let mut task = self.running.take().unwrap();
        let ghost t = task;
        let heap_top = task.heap_top;
        let first = heap_top / PAGE_SIZE;
        match target {
            Some(target) => {
                if target <= heap_top {
                    self.running = Some(task);
                    return HeapExtension::Extended;
                }
            },
            None => {},
        }
        let mut ok = false;
        match &mut task.page_table {
            TaskPageTable::User(pt) => {
                if target.is_some() && target.unwrap() <= USER_SPACE_END && frames.len() as u64
                    == needed {
                    assert(first + needed <= u64::MAX) by {
                        assert(heap_top % PAGE_SIZE == 0);
                    }
                    Self::map_fresh(pt, first, frames, frames.len());
                    ok = true;
                }
            },
            TaskPageTable::Kernel => {},
        }
        if ok {
            task.heap_top = target.unwrap();
            assert(frames@.take(frames@.len() as int) =~= frames@);
            assert(task.heap_top % PAGE_SIZE == 0);
            self.running = Some(task);
            HeapExtension::Extended
        } else {
            self.loaded_root = self.kernel.root_frame();
            let mut released = task.into_released_frames();
            let mut k: usize = 0;
            let ghost base = released@;
            while k < frames.len()
                invariant
                    k <= frames@.len(),
                    released@ == base + frames@.take(k as int),
                decreases frames@.len() - k,
            {
                released.push(frames[k]);
                k = k + 1;
                assert(released@ =~= base + frames@.take(k as int));
            }
            assert(frames@.take(frames@.len() as int) =~= frames@);
            HeapExtension::Killed(released)
        }
    }
}

impl TaskManager {
    /// Moves the task pended under `handle` to the back of its class's
    /// queue, with `pre_scheduling` to run when it is next scheduled.
    pub fn resume_task(&mut self, handle: PendingTaskHandle, pre_scheduling: PreScheduling)
        requires
            old(self).wf(),
            is_pending(old(self).pending_spec(), handle.id_spec()),
        ensures
            final(self).wf(),
            final(self).running_spec() == old(self).running_spec(),
            final(self).next_id_spec() == old(self).next_id_spec(),
            final(self).kernel_root() == old(self).kernel_root(),
            final(self).loaded_root_spec() == old(self).loaded_root_spec(),
            !is_pending(final(self).pending_spec(), handle.id_spec()),
            exists|i: int|
                #[trigger] is_first_pending(old(self).pending_spec(), handle.id_spec(), i) && {
                    let t = old(self).pending_spec()[i].task;
                    &&& final(self).pending_spec() == old(self).pending_spec().remove(i)
                    &&& final(self).ready_spec() == enqueue(
                        old(self).ready_spec(),
                        Task { pre_scheduling: Some(pre_scheduling), ..t },
                    )
                },
    {
        let id = handle.id;
        let mut i: usize = 0;
        while i < self.pending.len() && self.pending[i].id != id
            invariant
                *self == *old(self),
                0 <= i <= self.pending@.len(),
                is_pending(self.pending@, id),
                forall|j: int| 0 <= j < i ==> (#[trigger] self.pending@[j]).id != id,
            decreases self.pending@.len() - i,
        {
            i = i + 1;
        }
        if i == self.pending.len() {
            proof {
                let j = choose|j: int| 0 <= j < self.pending@.len() && (#[trigger] self.pending@[j]).id == id;
                assert(self.pending@[j].id != id);
            }
        }
        assert(is_first_pending(old(self).pending_spec(), id, i as int));
        let ghost before = self.pending@;
        proof {
            lemma_ids_unpend(self.ready_spec(), before, self.next_task_id, i as int);
        }
        let entry = self.pending.remove(i);
        assert(pended_ok(before[i as int]));
        assert forall|j: int| 0 <= j < self.pending@.len() implies #[trigger] pended_ok(self.pending@[j]) by {
            if j < i {
                assert(pended_ok(before[j]));
            } else {
                assert(pended_ok(before[j + 1]));
            }
        }
        let mut task = entry.task;
        task.pre_scheduling = Some(pre_scheduling);
        proof { lemma_enqueue(self.ready_spec(), task); }
        self.add_to_ready(task);
    }

    /// Registers `resource` with the running task under the next handle,
    /// one past the last (the first is 0).
    pub fn add_current_resources(&mut self, resource: BoxedResource) -> (r: ResourceHandle)
        requires
            old(self).wf(),
            old(self).running_spec().is_some(),
        ensures
            final(self).wf(),
            ({
                let t = old(self).running_spec().unwrap();
                &&& r.0 == t.resources@.len()
                &&& final(self).running_spec() == Some(
                    Task { resources: final(self).running_spec().unwrap().resources, ..t },
                )
                &&& final(self).running_spec().unwrap().resources@ == t.resources@.push(resource)
            }),
            final(self).ready_spec() == old(self).ready_spec(),
            final(self).pending_spec() == old(self).pending_spec(),
            final(self).next_id_spec() == old(self).next_id_spec(),
            final(self).kernel_root() == old(self).kernel_root(),
            final(self).loaded_root_spec() == old(self).loaded_root_spec(),
    {
        let mut task = self.running.take().unwrap();
        let handle = ResourceHandle(task.resources.len() as u64);
        task.resources.push(resource);
        self.running = Some(task);
        assert(self.idle_present());
        handle
    }

    /// The running task's resource under `handle`, if there is one.
    pub fn get_current_resource(&self, handle: ResourceHandle) -> (r: Option<BoxedResource>)
        requires
            self.running_spec().is_some(),
        ensures
            ({
                let res = self.running_spec().unwrap().resources@;
                r == if handle.0 < res.len() {
                    Some(res[handle.0 as int])
                } else {
                    None
                }
            }),
    {
        match &self.running {
            Some(t) => {
                if handle.0 < t.resources.len() as u64 {
                    Some(t.resources[handle.0 as usize])
                } else {
                    None
                }
            },
            None => None,
        }
    }

    pub fn has_running(&self) -> (r: bool)
        ensures
            r == self.running_spec().is_some(),
    {
        self.running.is_some()
    }

    /// The running task's identity.
    pub fn current_info(&self) -> (r: Option<&TaskInfo>)
        ensures
            match self.running_spec() {
                Some(t) => r == Some(&t.info),
                None => r.is_none(),
            },
    {
        match &self.running {
            Some(t) => Some(&t.info),
            None => None,
        }
    }

    /// The running task's address space (the kernel's for the idle task).
    pub closed spec fn current_page_table_spec(&self) -> PageTableWrapper {
        match self.running.unwrap().page_table {
            TaskPageTable::User(pt) => pt,
            TaskPageTable::Kernel => self.kernel,
        }
    }

    /// The running task's address space.
    pub fn current_page_table(&self) -> (r: Option<&PageTableWrapper>)
        requires
            self.wf(),
        ensures
            match self.running_spec() {
                Some(t) => r matches Some(pt) && *pt == self.current_page_table_spec() && match t.page_table {
                    TaskPageTable::User(upt) => *pt == upt,
                    TaskPageTable::Kernel => pt.root_spec() == self.kernel_root() && !pt.is_user_spec(),
                },
                None => r.is_none(),
            },
    {
        match &self.running {
            Some(t) => match &t.page_table {
                TaskPageTable::User(pt) => Some(pt),
                TaskPageTable::Kernel => Some(&self.kernel),
            },
            None => None,
        }
    }

    /// The kernel's address space.
    pub fn kernel_page_table(&self) -> (r: &PageTableWrapper)
        requires
            self.wf(),
        ensures
            r.root_spec() == self.kernel_root(),
            !r.is_user_spec(),
            r.wf(),
    {
        &self.kernel
    }

    /// Whether a task is pended under `id`.
    pub fn is_pending(&self, id: u64) -> (r: bool)
        ensures
            r == is_pending(self.pending_spec(), id),
    {
        let mut i: usize = 0;
        while i < self.pending.len()
            invariant
                0 <= i <= self.pending@.len(),
                forall|j: int| 0 <= j < i ==> (#[trigger] self.pending@[j]).id != id,
            decreases self.pending@.len() - i,
        {
            if self.pending[i].id == id {
                return true;
            }
            i = i + 1;
        }
        false
    }
}

impl TaskManager {
    /// Publishes a new user task at user priority. `page_table` is its fresh
    /// address space with the program and its stack already loaded, `entry`
    /// the program's entry point, and `buffer_frames` the frames for its two
    /// syscall buffers (request pages, then response pages), which are
    /// mapped here with user data flags. The task starts at `entry` on the
    /// user stack with interrupts enabled and an empty heap.
    pub fn load_user(
        &mut self,
        name: String,
        page_table: PageTableWrapper,
        entry: u64,
        buffer_frames: &Vec<u64>,
    )
        requires
            old(self).wf(),
            old(self).next_id_spec() < u64::MAX,
            page_table.wf(),
            page_table.is_user_spec(),
            buffer_frames@.len() == 2 * SYSCALL_BUFFER_PAGES,
            pages_free(
                page_table.mappings_spec(),
                (SYSCALL_IN_ADDR / PAGE_SIZE) as int,
                (SYSCALL_IN_ADDR / PAGE_SIZE) + SYSCALL_BUFFER_PAGES,
            ),
            pages_free(
                page_table.mappings_spec(),
                (SYSCALL_OUT_ADDR / PAGE_SIZE) as int,
                (SYSCALL_OUT_ADDR / PAGE_SIZE) + SYSCALL_BUFFER_PAGES,
            ),
        ensures
            final(self).wf(),
            final(self).next_id_spec() == old(self).next_id_spec() + 1,
            final(self).running_spec() == old(self).running_spec(),
            final(self).pending_spec() == old(self).pending_spec(),
            final(self).kernel_root() == old(self).kernel_root(),
            final(self).loaded_root_spec() == old(self).loaded_root_spec(),
            exists|t: Task|
                {
                    &&& final(self).ready_spec() == #[trigger] enqueue(old(self).ready_spec(), t)
                    &&& t.info.id == old(self).next_id_spec()
                    &&& t.info.name@ == name@
                    &&& t.priority.0 == 128
                    &&& t.heap_top == USER_HEAP_BASE
                    &&& t.frame == Some(
                        TaskFrame::new_entry_spec(
                            entry,
                            USER_STACK_TOP,
                            USER_CODE_SELECTOR,
                            USER_DATA_SELECTOR,
                            USER_DATA_SELECTOR,
                        ),
                    )
                    &&& t.resources@.len() == 0
                    &&& t.pre_scheduling.is_none()
                    &&& t.page_table matches TaskPageTable::User(pt) && pt.root_spec()
                        == page_table.root_spec() && pt.mappings_spec()
                        == page_table.mappings_spec() + buffer_mappings(buffer_frames@)
                        && pt.allocated_spec() == page_table.allocated_spec() + buffer_frames@
                },
    {
        let mut pt = page_table;
        let in_first = SYSCALL_IN_ADDR / PAGE_SIZE;
        let out_first = SYSCALL_OUT_ADDR / PAGE_SIZE;
        let mut in_frames: Vec<u64> = Vec::new();
        let mut out_frames: Vec<u64> = Vec::new();
        let half = SYSCALL_BUFFER_PAGES as usize;
        let mut k: usize = 0;
        while k < half
            invariant
                k <= half,
                half == SYSCALL_BUFFER_PAGES,
                buffer_frames@.len() == 2 * SYSCALL_BUFFER_PAGES,
                in_frames@ == buffer_frames@.take(k as int),
            decreases half - k,
        {
            in_frames.push(buffer_frames[k]);
            k = k + 1;
            assert(in_frames@ =~= buffer_frames@.take(k as int));
        }
        while k < buffer_frames.len()
            invariant
                half <= k <= buffer_frames@.len(),
                half == SYSCALL_BUFFER_PAGES,
                buffer_frames@.len() == 2 * SYSCALL_BUFFER_PAGES,
                out_frames@ == buffer_frames@.subrange(half as int, k as int),
            decreases buffer_frames@.len() - k,
        {
            out_frames.push(buffer_frames[k]);
            k = k + 1;
            assert(out_frames@ =~= buffer_frames@.subrange(half as int, k as int));
        }
        assert(out_frames@ =~= buffer_frames@.skip(SYSCALL_BUFFER_PAGES as int));
        assert(in_frames@ =~= buffer_frames@.take(SYSCALL_BUFFER_PAGES as int));
        let ghost m0 = pt.mappings_spec();
        Self::map_fresh(&mut pt, in_first, &in_frames, in_frames.len());
        assert(in_frames@.take(in_frames@.len() as int) =~= in_frames@);
        let ghost m1 = pt.mappings_spec();
        assert(pages_free(m1, out_first as int, out_first + SYSCALL_BUFFER_PAGES)) by {
            assert forall|p: int| out_first <= p < out_first + SYSCALL_BUFFER_PAGES implies !#[trigger] is_mapped(m1, p) by {
                assert(!is_mapped(m0, p));
                if is_mapped(m1, p) {
                    let i = choose|i: int| 0 <= i < m1.len() && m1[i].page == p;
                    if i >= m0.len() {
                        let j = i - m0.len();
                        assert(m1[i] == fresh_mappings(in_first as int, in_frames@)[j]);
                    }
                }
            }
        }
        Self::map_fresh(&mut pt, out_first, &out_frames, out_frames.len());
        assert(out_frames@.take(out_frames@.len() as int) =~= out_frames@);
        assert(pt.mappings_spec() =~= m0 + buffer_mappings(buffer_frames@));
        assert(pt.allocated_spec() =~= page_table.allocated_spec() + buffer_frames@);

        let frame = TaskFrame::new_entry(
            entry,
            USER_STACK_TOP,
            USER_CODE_SELECTOR,
            USER_DATA_SELECTOR,
            USER_DATA_SELECTOR,
        );
        let id = self.next_task_id;
        self.next_task_id = self.next_task_id + 1;
        let task = Task {
            info: TaskInfo { id, name },
            priority: Priority::user(),
            heap_top: USER_HEAP_BASE,
            page_table: TaskPageTable::User(pt),
            frame: Some(frame),
            resources: Vec::new(),
            pre_scheduling: None,
        };
        let ghost t = task;
        proof { lemma_enqueue(self.ready_spec(), task); }
        self.add_to_ready(task);
        assert(self.ready_spec() == enqueue(old(self).ready_spec(), t));
    }
}

impl PendingTaskHandle {
    /// Resumes the pended task so that, once its address space is loaded
    /// again, `data` is copied to its memory at `copy_to` and `response` is
    /// written to its response buffer.
    pub fn resume_syscall_response(
        self,
        tm: &mut TaskManager,
        copy_to: u64,
        data: Vec<u8>,
        response: SyscallResponse,
    )
        requires
            old(tm).wf(),
            is_pending(old(tm).pending_spec(), self.id_spec()),
        ensures
            final(tm).wf(),
            final(tm).running_spec() == old(tm).running_spec(),
            !is_pending(final(tm).pending_spec(), self.id_spec()),
            exists|i: int|
                #[trigger] is_first_pending(old(tm).pending_spec(), self.id_spec(), i) && {
                    let t = old(tm).pending_spec()[i].task;
                    &&& final(tm).pending_spec() == old(tm).pending_spec().remove(i)
                    &&& final(tm).ready_spec() == enqueue(
                        old(tm).ready_spec(),
                        Task { pre_scheduling: Some(PreScheduling { copy_to, data, response }), ..t },
                    )
                },
    {
        tm.resume_task(self, PreScheduling { copy_to, data, response });
    }
}

/// A user program ready to be published: its name, its address space with
/// the program and stack loaded, its entry point, and the frames for its
/// syscall buffers.
pub struct LoadedProgram {
    pub name: String,
    pub page_table: PageTableWrapper,
    pub entry: u64,
    pub buffer_frames: Vec<u64>,
}

/// Whether a program can be published by `load_user`.
pub open spec fn program_ok(p: LoadedProgram) -> bool {
    &&& p.page_table.wf()
    &&& p.page_table.is_user_spec()
    &&& p.buffer_frames@.len() == 2 * SYSCALL_BUFFER_PAGES
    &&& pages_free(
        p.page_table.mappings_spec(),
        (SYSCALL_IN_ADDR / PAGE_SIZE) as int,
        (SYSCALL_IN_ADDR / PAGE_SIZE) + SYSCALL_BUFFER_PAGES,
    )
    &&& pages_free(
        p.page_table.mappings_spec(),
        (SYSCALL_OUT_ADDR / PAGE_SIZE) as int,
        (SYSCALL_OUT_ADDR / PAGE_SIZE) + SYSCALL_BUFFER_PAGES,
    )
}

/// Publishes the initial user programs, in order, each at user priority
/// with the next task id.
pub fn load(tm: &mut TaskManager, programs: Vec<LoadedProgram>)
    requires
        old(tm).wf(),
        old(tm).next_id_spec() + programs@.len() <= u64::MAX,
        forall|i: int| 0 <= i < programs@.len() ==> #[trigger] program_ok(programs@[i]),
    ensures
        final(tm).wf(),
        final(tm).next_id_spec() == old(tm).next_id_spec() + programs@.len(),
        final(tm).running_spec() == old(tm).running_spec(),
        final(tm).pending_spec() == old(tm).pending_spec(),
        ready_count(final(tm).ready_spec()) == ready_count(old(tm).ready_spec()) + programs@.len(),
        exists|added: Seq<Task>|
            {
                &&& added.len() == programs@.len()
                &&& final(tm).ready_spec() == old(tm).ready_spec().update(
                    128,
                    #[trigger] (old(tm).ready_spec()[128] + added),
                )
                &&& forall|i: int|
                    0 <= i < added.len() ==> (#[trigger] added[i]).info.id == old(
                        tm,
                    ).next_id_spec() + i && added[i].info.name@ == programs@[i].name@
                        && added[i].priority.0 == 128
            },
{
    let mut rest = programs;
    let ghost orig = rest@;
    let ghost mut loaded: int = 0;
    let ghost mut added: Seq<Task> = Seq::empty();
    assert(old(tm).ready_spec()[128] + added =~= old(tm).ready_spec()[128]);
    assert(old(tm).ready_spec().update(128, old(tm).ready_spec()[128]) =~= old(tm).ready_spec());
    while rest.len() > 0
        invariant
            tm.wf(),
            0 <= loaded <= orig.len(),
            rest@ == orig.skip(loaded),
            tm.next_id_spec() == old(tm).next_id_spec() + loaded,
            old(tm).next_id_spec() + orig.len() <= u64::MAX,
            forall|i: int| 0 <= i < orig.len() ==> #[trigger] program_ok(orig[i]),
            tm.running_spec() == old(tm).running_spec(),
            tm.pending_spec() == old(tm).pending_spec(),
            ready_count(tm.ready_spec()) == ready_count(old(tm).ready_spec()) + loaded,
            old(tm).ready_spec().len() == PRIORITY_CLASSES,
            added.len() == loaded,
            tm.ready_spec() == old(tm).ready_spec().update(128, old(tm).ready_spec()[128] + added),
            forall|i: int|
                0 <= i < added.len() ==> (#[trigger] added[i]).info.id == old(tm).next_id_spec() + i
                    && added[i].info.name@ == orig[i].name@ && added[i].priority.0 == 128,
        decreases rest@.len(),
    {
        let p = rest.remove(0);
        let ghost nm = p.name@;
        assert(p == orig[loaded]);
        assert(program_ok(orig[loaded]));
        let ghost before = tm.ready_spec();
        tm.load_user(p.name, p.page_table, p.entry, &p.buffer_frames);
        proof {
            let t = choose|t: Task|
                tm.ready_spec() == #[trigger] enqueue(before, t) && t.info.id == old(
                    tm,
                ).next_id_spec() + loaded && t.info.name@ == nm && t.priority.0 == 128;
            lemma_ready_count_update(before, t.priority.0 as int, before[t.priority.0 as int].push(t));
            let prev = added;
            added = added.push(t);
            assert(old(tm).ready_spec()[128] + added =~= (old(tm).ready_spec()[128] + prev).push(t));
            assert(tm.ready_spec() =~= old(tm).ready_spec().update(128, old(tm).ready_spec()[128] + added));
            assert forall|i: int| 0 <= i < added.len() implies (#[trigger] added[i]).info.id == old(
                tm,
            ).next_id_spec() + i && added[i].info.name@ == orig[i].name@ && added[i].priority.0 == 128 by {
                if i < prev.len() {
                    assert(added[i] == prev[i]);
                }
            }
            loaded = loaded + 1;
        }
        assert(rest@ =~= orig.skip(loaded));
    }
}

/// Every queued or pended task holds a saved frame: only the running task,
/// while it executes, has none.
pub proof fn lemma_only_running_lacks_frame(tm: TaskManager)
    requires
        tm.wf(),
    ensures
        forall|p: int, i: int|
            0 <= p < tm.ready_spec().len() && 0 <= i < tm.ready_spec()[p].len() ==> (
            #[trigger] tm.ready_spec()[p][i]).frame.is_some(),
        forall|i: int|
            0 <= i < tm.pending_spec().len() ==> (#[trigger] tm.pending_spec()[i]).task.frame.is_some(),
{
    assert forall|p: int, i: int|
        0 <= p < tm.ready_spec().len() && 0 <= i < tm.ready_spec()[p].len() implies (
        #[trigger] tm.ready_spec()[p][i]).frame.is_some() by {
        assert(queued_ok(tm.ready_spec()[p][i], p));
    }
    assert forall|i: int| 0 <= i < tm.pending_spec().len() implies (
    #[trigger] tm.pending_spec()[i]).task.frame.is_some() by {
        assert(pended_ok(tm.pending_spec()[i]));
    }
}

/// A queue is first in, first out: queuing a task behind others in its
/// class leaves the oldest task of that class at the front, and the first
/// non-empty class unchanged unless the class was empty.
pub proof fn lemma_queue_fifo(r: Seq<Seq<Task>>, t: Task, p: int)
    requires
        r.len() == PRIORITY_CLASSES,
        is_first_ready(r, p),
    ensures
        enqueue(r, t)[p][0] == r[p][0],
        t.priority.0 >= p ==> is_first_ready(enqueue(r, t), p),
        t.priority.0 < p ==> is_first_ready(enqueue(r, t), t.priority.0 as int),
{
    let q = t.priority.0 as int;
    let u = enqueue(r, t);
    if q == p {
        assert(u[p][0] == r[p][0]);
    }
    if q < p {
        assert(u[q].len() == 1);
        assert forall|k: int| 0 <= k < q implies (#[trigger] u[k]).len() == 0 by {
            assert(r[k].len() == 0);
        }
    } else {
        assert forall|k: int| 0 <= k < p implies (#[trigger] u[k]).len() == 0 by {
            assert(r[k].len() == 0);
        }
    }
}

impl TaskManager {
    /// The id the next user task gets.
    pub fn next_id(&self) -> (r: u64)
        ensures
            r == self.next_id_spec(),
    {
        self.next_task_id
    }

    /// Root of the address space the CPU runs on.
    pub fn loaded_root(&self) -> (r: u64)
        ensures
            r == self.loaded_root_spec(),
    {
        self.loaded_root
    }

    /// Root of the kernel's address space.
    pub fn kernel_root_frame(&self) -> (r: u64)
        ensures
            r == self.kernel_root(),
    {
        self.kernel.root_frame()
    }

    /// The running task's saved frame: `None` while it executes.
    pub fn current_frame(&self) -> (r: Option<TaskFrame>)
        ensures
            match self.running_spec() {
                Some(t) => r == t.frame,
                None => r.is_none(),
            },
    {
        match &self.running {
            Some(t) => t.frame,
            None => None,
        }
    }

    /// The running task's heap top.
    pub fn current_heap_top(&self) -> (r: Option<u64>)
        ensures
            match self.running_spec() {
                Some(t) => r == Some(t.heap_top),
                None => r.is_none(),
            },
    {
        match &self.running {
            Some(t) => Some(t.heap_top),
            None => None,
        }
    }

    /// Number of tasks queued in class `priority`.
    pub fn ready_len(&self, priority: u8) -> (r: usize)
        requires
            self.wf(),
        ensures
            r == self.ready_spec()[priority as int].len(),
    {
        self.ready[priority as usize].len()
    }
}

/// Whether a queued task has id `id`.
pub open spec fn in_ready(r: Seq<Seq<Task>>, id: u64) -> bool {
    exists|p: int, i: int| 0 <= p < r.len() && 0 <= i < r[p].len() && (#[trigger] r[p][i]).info.id == id
}

/// Task ids are unique over the queues and the pended entries, none is
/// both queued and pended, and all are below the next id.
pub open spec fn store_ok(r: Seq<Seq<Task>>, s: Seq<PendingEntry>, next: u64) -> bool {
    &&& forall|p: int, i: int, q: int, j: int|
        0 <= p < r.len() && 0 <= i < r[p].len() && 0 <= q < r.len() && 0 <= j < r[q].len() && (p
            != q || i != j) ==> (#[trigger] r[p][i]).info.id != (#[trigger] r[q][j]).info.id
    &&& forall|i: int, j: int| 0 <= i < j < s.len() ==> (#[trigger] s[i]).id != (#[trigger] s[j]).id
    &&& forall|p: int, i: int|
        0 <= p < r.len() && 0 <= i < r[p].len() ==> !is_pending(s, (#[trigger] r[p][i]).info.id)
            && r[p][i].info.id < next
    &&& forall|i: int| 0 <= i < s.len() ==> (#[trigger] s[i]).id < next
}

/// The running task's id is below the next id, and neither queued nor
/// pended.
pub open spec fn running_id_ok(id: u64, r: Seq<Seq<Task>>, s: Seq<PendingEntry>, next: u64) -> bool {
    id < next && !in_ready(r, id) && !is_pending(s, id)
}

proof fn lemma_ids_enqueue(r: Seq<Seq<Task>>, s: Seq<PendingEntry>, next: u64, t: Task)
    requires
        store_ok(r, s, next),
        r.len() == PRIORITY_CLASSES,
        running_id_ok(t.info.id, r, s, next),
    ensures
        store_ok(enqueue(r, t), s, next),
        forall|id: u64| #[trigger] in_ready(enqueue(r, t), id) ==> in_ready(r, id) || id == t.info.id,
{
    let c = t.priority.0 as int;
    let u = enqueue(r, t);
    assert forall|p: int, i: int, q: int, j: int|
        0 <= p < u.len() && 0 <= i < u[p].len() && 0 <= q < u.len() && 0 <= j < u[q].len() && (p
            != q || i != j) implies (#[trigger] u[p][i]).info.id != (#[trigger] u[q][j]).info.id by {
        let lp = p == c && i == r[c].len();
        let lq = q == c && j == r[c].len();
        if lp {
            assert(u[p][i] == t);
            assert(u[q][j] == r[q][j]);
            if u[q][j].info.id == t.info.id {
                assert(in_ready(r, t.info.id));
            }
        } else if lq {
            assert(u[q][j] == t);
            assert(u[p][i] == r[p][i]);
            if u[p][i].info.id == t.info.id {
                assert(in_ready(r, t.info.id));
            }
        } else {
            assert(u[p][i] == r[p][i]);
            assert(u[q][j] == r[q][j]);
        }
    }
    assert forall|p: int, i: int|
        0 <= p < u.len() && 0 <= i < u[p].len() implies !is_pending(s, (#[trigger] u[p][i]).info.id)
        && u[p][i].info.id < next by {
        if p == c && i == r[c].len() {
            assert(u[p][i] == t);
        } else {
            assert(u[p][i] == r[p][i]);
        }
    }
    assert forall|id: u64| #[trigger] in_ready(u, id) implies in_ready(r, id) || id == t.info.id by {
        let (p, i) = choose|p: int, i: int|
            0 <= p < u.len() && 0 <= i < u[p].len() && (#[trigger] u[p][i]).info.id == id;
        if !(p == c && i == r[c].len()) {
            assert(u[p][i] == r[p][i]);
        }
    }
}

proof fn lemma_ids_dequeue(r: Seq<Seq<Task>>, s: Seq<PendingEntry>, next: u64, p: int)
    requires
        store_ok(r, s, next),
        0 <= p < r.len(),
        r[p].len() > 0,
    ensures
        store_ok(r.update(p, r[p].drop_first()), s, next),
        running_id_ok(r[p][0].info.id, r.update(p, r[p].drop_first()), s, next),
        forall|id: u64| #[trigger] in_ready(r.update(p, r[p].drop_first()), id) ==> in_ready(r, id),
{
    let u = r.update(p, r[p].drop_first());
    assert forall|a: int, i: int| 0 <= a < u.len() && 0 <= i < u[a].len() implies #[trigger] u[a][i]
        == r[a][if a == p { i + 1 } else { i }] by {}
    assert forall|a: int, i: int, b: int, j: int|
        0 <= a < u.len() && 0 <= i < u[a].len() && 0 <= b < u.len() && 0 <= j < u[b].len() && (a
            != b || i != j) implies (#[trigger] u[a][i]).info.id != (#[trigger] u[b][j]).info.id by {
        let ii = if a == p { i + 1 } else { i };
        let jj = if b == p { j + 1 } else { j };
        assert(r[a][ii].info.id != r[b][jj].info.id);
    }
    assert forall|a: int, i: int|
        0 <= a < u.len() && 0 <= i < u[a].len() implies !is_pending(s, (#[trigger] u[a][i]).info.id)
        && u[a][i].info.id < next by {
        let ii = if a == p { i + 1 } else { i };
        assert(u[a][i] == r[a][ii]);
    }
    assert forall|id: u64| #[trigger] in_ready(u, id) implies in_ready(r, id) by {
        let (a, i) = choose|a: int, i: int|
            0 <= a < u.len() && 0 <= i < u[a].len() && (#[trigger] u[a][i]).info.id == id;
        let ii = if a == p { i + 1 } else { i };
        assert(u[a][i] == r[a][ii]);
    }
    if in_ready(u, r[p][0].info.id) {
        let (a, i) = choose|a: int, i: int|
            0 <= a < u.len() && 0 <= i < u[a].len() && (#[trigger] u[a][i]).info.id == r[p][0].info.id;
        let ii = if a == p { i + 1 } else { i };
        assert(u[a][i] == r[a][ii]);
        assert(r[a][ii].info.id != r[p][0].info.id);
    }
    assert(r[p][0].info.id < next);
}

proof fn lemma_ids_pend(r: Seq<Seq<Task>>, s: Seq<PendingEntry>, next: u64, e: PendingEntry)
    requires
        store_ok(r, s, next),
        running_id_ok(e.id, r, s, next),
    ensures
        store_ok(r, s.push(e), next),
{
    let u = s.push(e);
    assert forall|i: int, j: int| 0 <= i < j < u.len() implies (#[trigger] u[i]).id != (
    #[trigger] u[j]).id by {
        if j == s.len() {
            assert(u[i] == s[i]);
            if s[i].id == e.id {
                assert(is_pending(s, e.id));
            }
        }
    }
    assert forall|p: int, i: int|
        0 <= p < r.len() && 0 <= i < r[p].len() implies !is_pending(u, (#[trigger] r[p][i]).info.id)
        && r[p][i].info.id < next by {
        assert(!is_pending(s, r[p][i].info.id));
        if is_pending(u, r[p][i].info.id) {
            let k = choose|k: int| 0 <= k < u.len() && (#[trigger] u[k]).id == r[p][i].info.id;
            if k < s.len() {
                assert(u[k] == s[k]);
            } else {
                assert(in_ready(r, e.id));
            }
        }
    }
}

proof fn lemma_ids_unpend(r: Seq<Seq<Task>>, s: Seq<PendingEntry>, next: u64, k: int)
    requires
        store_ok(r, s, next),
        0 <= k < s.len(),
    ensures
        store_ok(r, s.remove(k), next),
        running_id_ok(s[k].id, r, s.remove(k), next),
{
    let u = s.remove(k);
    assert forall|i: int| 0 <= i < u.len() implies #[trigger] u[i] == s[if i < k { i } else { i + 1 }] by {}
    assert forall|i: int, j: int| 0 <= i < j < u.len() implies (#[trigger] u[i]).id != (
    #[trigger] u[j]).id by {
        let ii = if i < k { i } else { i + 1 };
        let jj = if j < k { j } else { j + 1 };
        assert(s[ii].id != s[jj].id);
    }
    assert forall|p: int, i: int|
        0 <= p < r.len() && 0 <= i < r[p].len() implies !is_pending(u, (#[trigger] r[p][i]).info.id)
        && r[p][i].info.id < next by {
        assert(!is_pending(s, r[p][i].info.id));
        if is_pending(u, r[p][i].info.id) {
            let m = choose|m: int| 0 <= m < u.len() && (#[trigger] u[m]).id == r[p][i].info.id;
            let mm = if m < k { m } else { m + 1 };
            assert(u[m] == s[mm]);
        }
    }
    assert forall|i: int| 0 <= i < u.len() implies (#[trigger] u[i]).id < next by {
        let ii = if i < k { i } else { i + 1 };
        assert(u[i] == s[ii]);
    }
    if is_pending(u, s[k].id) {
        let m = choose|m: int| 0 <= m < u.len() && (#[trigger] u[m]).id == s[k].id;
        let mm = if m < k { m } else { m + 1 };
        assert(u[m] == s[mm]);
        if mm < k {
            assert(s[mm].id != s[k].id);
        } else {
            assert(s[k].id != s[mm].id);
        }
    }
    if in_ready(r, s[k].id) {
        let (p, i) = choose|p: int, i: int|
            0 <= p < r.len() && 0 <= i < r[p].len() && (#[trigger] r[p][i]).info.id == s[k].id;
        assert(!is_pending(s, r[p][i].info.id));
    }
}

proof fn lemma_ids_live(r: Seq<Seq<Task>>, s: Seq<PendingEntry>, next: u64)
    requires
        store_ok(r, s, next),
    ensures
        store_ok(r, live_entries(s), next),
        forall|id: u64| #[trigger] is_pending(live_entries(s), id) ==> is_pending(s, id),
    decreases s.len(),
{
    let l = live_entries(s);
    if s.len() > 0 {
        let t = s.skip(1);
        assert(store_ok(r, t, next)) by {
            assert forall|i: int, j: int| 0 <= i < j < t.len() implies (#[trigger] t[i]).id != (
            #[trigger] t[j]).id by {
                assert(s[i + 1].id != s[j + 1].id);
            }
            assert forall|p: int, i: int|
                0 <= p < r.len() && 0 <= i < r[p].len() implies !is_pending(t, (#[trigger] r[p][i]).info.id)
                && r[p][i].info.id < next by {
                if is_pending(t, r[p][i].info.id) {
                    let m = choose|m: int| 0 <= m < t.len() && (#[trigger] t[m]).id == r[p][i].info.id;
                    assert(s[m + 1] == t[m]);
                    assert(!is_pending(s, r[p][i].info.id));
                }
            }
            assert forall|i: int| 0 <= i < t.len() implies (#[trigger] t[i]).id < next by {
                assert(s[i + 1] == t[i]);
            }
        }
        lemma_ids_live(r, t, next);
        let lt = live_entries(t);
        assert forall|id: u64| #[trigger] is_pending(lt, id) implies is_pending(s, id) by {
            assert(is_pending(t, id));
            let m = choose|m: int| 0 <= m < t.len() && (#[trigger] t[m]).id == id;
            assert(s[m + 1] == t[m]);
        }
        if s[0].handle_live {
            assert(l == seq![s[0]] + lt);
            if is_pending(lt, s[0].id) {
                assert(is_pending(t, s[0].id));
                let m = choose|m: int| 0 <= m < t.len() && (#[trigger] t[m]).id == s[0].id;
                assert(s[m + 1] == t[m]);
                assert(s[0].id != s[m + 1].id);
            }
            assert forall|i: int, j: int| 0 <= i < j < l.len() implies (#[trigger] l[i]).id != (
            #[trigger] l[j]).id by {
                if i == 0 {
                    assert(l[j] == lt[j - 1]);
                    if l[j].id == s[0].id {
                        assert(is_pending(lt, s[0].id));
                    }
                } else {
                    assert(l[i] == lt[i - 1]);
                    assert(l[j] == lt[j - 1]);
                }
            }
            assert forall|p: int, i: int|
                0 <= p < r.len() && 0 <= i < r[p].len() implies !is_pending(l, (#[trigger] r[p][i]).info.id)
                && r[p][i].info.id < next by {
                if is_pending(l, r[p][i].info.id) {
                    let m = choose|m: int| 0 <= m < l.len() && (#[trigger] l[m]).id == r[p][i].info.id;
                    if m == 0 {
                        assert(is_pending(s, r[p][i].info.id));
                    } else {
                        assert(l[m] == lt[m - 1]);
                        assert(is_pending(lt, r[p][i].info.id));
                    }
                }
            }
            assert forall|i: int| 0 <= i < l.len() implies (#[trigger] l[i]).id < next by {
                if i > 0 {
                    assert(l[i] == lt[i - 1]);
                }
            }
            assert forall|id: u64| #[trigger] is_pending(l, id) implies is_pending(s, id) by {
                let m = choose|m: int| 0 <= m < l.len() && (#[trigger] l[m]).id == id;
                if m > 0 {
                    assert(l[m] == lt[m - 1]);
                    assert(is_pending(lt, id));
                }
            }
        } else {
            assert(l == lt);
        }
    }
}

proof fn lemma_zombies_gone(r: Seq<Seq<Task>>, s: Seq<PendingEntry>, next: u64)
    requires
        store_ok(r, s, next),
        pending_ok(s),
    ensures
        forall|k: int|
            0 <= k < zombie_tasks(s).len() ==> is_pending(s, (#[trigger] zombie_tasks(s)[k]).info.id)
                && !is_pending(live_entries(s), zombie_tasks(s)[k].info.id),
    decreases s.len(),
{
    if s.len() > 0 {
        let t = s.skip(1);
        assert(store_ok(r, t, next)) by {
            assert forall|i: int, j: int| 0 <= i < j < t.len() implies (#[trigger] t[i]).id != (
            #[trigger] t[j]).id by {
                assert(s[i + 1].id != s[j + 1].id);
            }
            assert forall|p: int, i: int|
                0 <= p < r.len() && 0 <= i < r[p].len() implies !is_pending(t, (#[trigger] r[p][i]).info.id)
                && r[p][i].info.id < next by {
                if is_pending(t, r[p][i].info.id) {
                    let m = choose|m: int| 0 <= m < t.len() && (#[trigger] t[m]).id == r[p][i].info.id;
                    assert(s[m + 1] == t[m]);
                    assert(!is_pending(s, r[p][i].info.id));
                }
            }
            assert forall|i: int| 0 <= i < t.len() implies (#[trigger] t[i]).id < next by {
                assert(s[i + 1] == t[i]);
            }
        }
        assert(pending_ok(t)) by {
            assert forall|i: int| 0 <= i < t.len() implies #[trigger] pended_ok(t[i]) by {
                assert(pended_ok(s[i + 1]));
            }
        }
        lemma_ids_live(r, t, next);
        lemma_zombies_gone(r, t, next);
        let zt = zombie_tasks(t);
        let lt = live_entries(t);
        assert(pended_ok(s[0]));
        // s[0]'s id occurs nowhere in t
        assert(!is_pending(t, s[0].id)) by {
            if is_pending(t, s[0].id) {
                let m = choose|m: int| 0 <= m < t.len() && (#[trigger] t[m]).id == s[0].id;
                assert(s[m + 1] == t[m]);
                assert(s[0].id != s[m + 1].id);
            }
        }
        assert forall|k: int| 0 <= k < zt.len() implies is_pending(s, (#[trigger] zt[k]).info.id)
            && !is_pending(live_entries(s), zt[k].info.id) && zt[k].info.id != s[0].id by {
            let m = choose|m: int| 0 <= m < t.len() && (#[trigger] t[m]).id == zt[k].info.id;
            assert(s[m + 1] == t[m]);
            if s[0].handle_live {
                assert(live_entries(s) == seq![s[0]] + lt);
                if is_pending(live_entries(s), zt[k].info.id) {
                    let n = choose|n: int|
                        0 <= n < live_entries(s).len() && (#[trigger] live_entries(s)[n]).id
                            == zt[k].info.id;
                    if n > 0 {
                        assert(live_entries(s)[n] == lt[n - 1]);
                        assert(is_pending(lt, zt[k].info.id));
                    }
                }
            } else {
                assert(live_entries(s) == lt);
            }
        }
        if !s[0].handle_live {
            let z = zombie_tasks(s);
            assert(z == seq![s[0].task] + zt);
            assert forall|k: int| 0 <= k < z.len() implies is_pending(s, (#[trigger] z[k]).info.id)
                && !is_pending(live_entries(s), z[k].info.id) by {
                if k == 0 {
                    assert(live_entries(s) == lt);
                    if is_pending(lt, s[0].id) {
                        lemma_ids_live(r, t, next);
                    }
                } else {
                    assert(z[k] == zt[k - 1]);
                }
            }
        } else {
            assert(zombie_tasks(s) == zt);
        }
    }
}

} // verus!
