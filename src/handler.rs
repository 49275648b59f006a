use vstd::prelude::*;

use crate::broadcast::Sender;
use crate::memory::{range_user_accessible, PageTableWrapper};
use crate::resource::{open, term_path, BoxedResource, ResourceError, Term};
use crate::syscall::{Syscall, SyscallResponse, UserSlice};
use crate::memory::align_up_spec;
use crate::task::{
    heap_extended, heap_range_free, enqueue, PendingEntry, Task,
    has_ready, heap_extension_succeeds, heap_pages_spec, HeapExtension, PendingTaskHandle,
    TaskManager, IDLE_ID,
};

verus! {

/// Kernel work a pended task waits on.
pub enum KernelJob {
    /// Resume the task with `Success` after `slice` timer slices.
    Sleep { slice: u64 },
    /// Read up to `buf.len` bytes from `resource`, copy them to `buf` and
    /// resume the task with the count.
    Read { resource: BoxedResource, buf: UserSlice },
}

/// What the interrupt glue does after a request was dispatched.
pub enum SyscallOutcome {
    /// Write the response, if the caller is still running.
    Respond(SyscallResponse),
    /// Print the caller's string, then write `Success`.
    Print { text: UserSlice },
    /// The caller was pended; spawn the job that resumes it.
    Pend { handle: PendingTaskHandle, job: KernelJob },
    /// The caller was killed; give these frames back to the frame allocator.
    Killed(Vec<u64>),
    /// Shut the machine down with success.
    Halt,
}

/// The borrowed user ranges a request carries.
pub open spec fn syscall_ranges(s: Syscall) -> Seq<UserSlice> {
    match s {
        Syscall::Print { str } => seq![str],
        Syscall::Open { path } => seq![path],
        Syscall::Read { buf, .. } => seq![buf],
        _ => Seq::empty(),
    }
}

/// Whether every range a request carries is user accessible in `pt`.
pub open spec fn syscall_legal(pt: PageTableWrapper, s: Syscall) -> bool {
    forall|i: int|
        0 <= i < syscall_ranges(s).len() ==> range_user_accessible(
            pt.mappings_spec(),
            (#[trigger] syscall_ranges(s)[i]).addr as int,
            syscall_ranges(s)[i].len as int,
        )
}

/// Whether `page_table` gives user access to every byte a request borrows
/// (its string, path or buffer).
pub fn ranges_accessible(page_table: &PageTableWrapper, syscall: &Syscall) -> (r: bool)
    ensures
        r == syscall_legal(*page_table, *syscall),
{
    let range = match syscall {
        Syscall::Print { str } => *str,
        Syscall::Open { path } => *path,
        Syscall::Read { buf, .. } => *buf,
        _ => {
            return true;
        },
    };
    assert(syscall_ranges(*syscall).len() == 1 && syscall_ranges(*syscall)[0] == range);
    page_table.check_user_accessible(range.addr, range.len)
}

/// The running task was dropped: the kernel's address space is loaded, the
/// other tasks stay where they were, and `released` holds the frames its
/// address space owned followed by `extra`.
pub open spec fn dropped(old_tm: TaskManager, new_tm: TaskManager, released: Seq<u64>, extra: Seq<
    u64,
>) -> bool {
    &&& new_tm.running_spec().is_none()
    &&& new_tm.loaded_root_spec() == new_tm.kernel_root()
    &&& new_tm.ready_spec() == old_tm.ready_spec()
    &&& new_tm.pending_spec() == old_tm.pending_spec()
    &&& released == old_tm.running_spec().unwrap().page_table->User_0.allocated_spec() + extra
}

/// The caller was killed; the outcome carries the frames to release.
pub open spec fn killed(old_tm: TaskManager, new_tm: TaskManager, r: SyscallOutcome, extra: Seq<
    u64,
>) -> bool {
    r matches SyscallOutcome::Killed(f) && dropped(old_tm, new_tm, f@, extra)
}

/// The caller was pended under a live handle; the queues are unchanged and
/// the kernel's address space is loaded.
pub open spec fn pended(old_tm: TaskManager, new_tm: TaskManager) -> bool {
    let t = old_tm.running_spec().unwrap();
    &&& new_tm.running_spec().is_none()
    &&& new_tm.loaded_root_spec() == new_tm.kernel_root()
    &&& new_tm.ready_spec() == old_tm.ready_spec()
    &&& new_tm.pending_spec() == old_tm.pending_spec().push(
        PendingEntry { id: t.info.id, task: t, handle_live: true },
    )
}

/// Checks that the running task's address space gives user access to every
/// byte the request borrows. When it does not, the task is killed and the
/// frames it owned are returned, to go back to the frame allocator;
/// otherwise nothing changes.
pub fn check_syscall_legal(tm: &mut TaskManager, syscall: &Syscall) -> (r: Result<(), Vec<u64>>)
    requires
        dispatch_ready(*old(tm)),
    ensures
        final(tm).wf(),
        r is Ok == syscall_legal(old(tm).current_page_table_spec(), *syscall),
        r is Ok ==> *final(tm) == *old(tm),
        r matches Err(f) ==> dropped(*old(tm), *final(tm), f@, Seq::empty()),
{
    let legal = match tm.current_page_table() {
        Some(pt) => ranges_accessible(pt, syscall),
        None => true,
    };
    if legal {
        Ok(())
    } else {
        let released = tm.drop_current();
        assert(released@ =~= released@ + Seq::<u64>::empty());
        Err(released)
    }
}

/// What is owed to a running caller before a request is dispatched.
pub open spec fn dispatch_ready(tm: TaskManager) -> bool {
    &&& tm.wf()
    &&& tm.running_spec() matches Some(t) && t.info.id != IDLE_ID && t.frame.is_some()
}

/// Dispatches a request from the running task, whose frame is saved. A
/// request borrowing memory its caller cannot access kills the caller.
/// `path` holds the bytes of an `Open` request's path, read from the caller
/// after the check; `frames` the frames the allocator handed out for an
/// `ExtendHeap` request (see `TaskManager::heap_pages_needed`).
pub fn handle_syscall(
    tm: &mut TaskManager,
    serial: &mut Sender<u8>,
    syscall: Syscall,
    path: &Vec<u8>,
    frames: &Vec<u64>,
) -> (r: SyscallOutcome)
    requires
        dispatch_ready(*old(tm)),
        old(serial).wf(),
        old(serial).next_id_spec() < u64::MAX,
        syscall matches Syscall::ExtendHeap { top } ==> frames@.len() <= heap_pages_spec(
            old(tm).running_spec().unwrap().heap_top,
            top,
        ) && heap_range_free(old(tm).running_spec().unwrap(), top),
    ensures
        final(tm).wf(),
        final(serial).wf(),
        ({
            let t = old(tm).running_spec().unwrap();
            let pt = old(tm).current_page_table_spec();
            if !syscall_legal(pt, syscall) {
                killed(*old(tm), *final(tm), r, Seq::empty())
            } else {
                match syscall {
                    Syscall::Print { str } => r == (SyscallOutcome::Print { text: str })
                        && *final(tm) == *old(tm),
                    Syscall::ExtendHeap { top } => if heap_extension_succeeds(t, top, frames@) {
                        &&& r is Respond && r->Respond_0 is Success
                        &&& final(tm).running_spec() is Some
                        &&& if align_up_spec(top as int) <= t.heap_top {
                            final(tm).running_spec() == old(tm).running_spec()
                        } else {
                            heap_extended(
                                final(tm).running_spec().unwrap(),
                                t,
                                align_up_spec(top as int),
                                frames@,
                            )
                        }
                        &&& final(tm).ready_spec() == old(tm).ready_spec()
                        &&& final(tm).pending_spec() == old(tm).pending_spec()
                        &&& final(tm).loaded_root_spec() == old(tm).loaded_root_spec()
                    } else {
                        killed(*old(tm), *final(tm), r, frames@)
                    },
                    Syscall::GetTaskId => r is Respond && r->Respond_0 == (
                    SyscallResponse::GetTaskId { task_id: t.info.id }) && *final(tm) == *old(tm),
                    Syscall::Yield => {
                        &&& r is Respond && r->Respond_0 is Success
                        &&& final(tm).pending_spec() == old(tm).pending_spec()
                        &&& if has_ready(old(tm).ready_spec()) {
                            &&& final(tm).running_spec().is_none()
                            &&& final(tm).ready_spec() == enqueue(old(tm).ready_spec(), t)
                        } else {
                            &&& final(tm).running_spec() == old(tm).running_spec()
                            &&& final(tm).ready_spec() == old(tm).ready_spec()
                        }
                    },
                    Syscall::Sleep { slice } => if slice == 0 {
                        r is Respond && r->Respond_0 is Success && *final(tm) == *old(tm)
                    } else {
                        &&& r matches SyscallOutcome::Pend { handle, job } && handle.id_spec()
                            == t.info.id && job == (KernelJob::Sleep { slice })
                        &&& pended(*old(tm), *final(tm))
                    },
                    Syscall::Open { .. } => if path@ == term_path() {
                        &&& r is Respond && r->Respond_0 == (SyscallResponse::Open {
                            handle: Ok(crate::resource::ResourceHandle(t.resources@.len() as u64)),
                        })
                        &&& final(tm).running_spec() == Some(
                            Task { resources: final(tm).running_spec().unwrap().resources, ..t },
                        )
                        &&& final(tm).running_spec().unwrap().resources@ == t.resources@.push(
                            BoxedResource::Term(Term { receiver: old(serial).next_id_spec() }),
                        )
                        &&& final(tm).ready_spec() == old(tm).ready_spec()
                        &&& final(tm).pending_spec() == old(tm).pending_spec()
                        &&& final(tm).loaded_root_spec() == old(tm).loaded_root_spec()
                    } else {
                        r is Respond && r->Respond_0 == (SyscallResponse::Open {
                            handle: Err(ResourceError::NotSupported),
                        }) && *final(tm) == *old(tm)
                    },
                    Syscall::Read { handle, buf } => if handle.0 < t.resources@.len() {
                        &&& r matches SyscallOutcome::Pend { handle: h, job } && h.id_spec()
                            == t.info.id && job == (KernelJob::Read {
                            resource: t.resources@[handle.0 as int],
                            buf,
                        })
                        &&& pended(*old(tm), *final(tm))
                    } else {
                        r is Respond && r->Respond_0 == (SyscallResponse::Read {
                            len: Err(ResourceError::NotExists),
                        }) && *final(tm) == *old(tm)
                    },
                    Syscall::Halt => r is Halt && *final(tm) == *old(tm),
                    Syscall::Exit => killed(*old(tm), *final(tm), r, Seq::empty()),
                }
            }
        }),
{
    match check_syscall_legal(tm, &syscall) {
        Ok(()) => {},
        Err(released) => {
            return SyscallOutcome::Killed(released);
        },
    }
    match syscall {
        Syscall::Print { str } => SyscallOutcome::Print { text: str },
        Syscall::ExtendHeap { top } => match tm.extend_current_heap(top, frames) {
            HeapExtension::Extended => SyscallOutcome::Respond(SyscallResponse::Success),
            HeapExtension::Killed(released) => SyscallOutcome::Killed(released),
        },
        Syscall::GetTaskId => {
            let id = match tm.current_info() {
                Some(info) => info.id,
                None => 0,
            };
            SyscallOutcome::Respond(SyscallResponse::GetTaskId { task_id: id })
        },
        Syscall::Yield => {
            tm.yield_current();
            SyscallOutcome::Respond(SyscallResponse::Success)
        },
        Syscall::Sleep { slice } => {
            if slice != 0 {
                let handle = tm.pend_current();
                SyscallOutcome::Pend { handle, job: KernelJob::Sleep { slice } }
            } else {
                SyscallOutcome::Respond(SyscallResponse::Success)
            }
        },
        Syscall::Open { .. } => match open(path, serial) {
            Ok(resource) => {
                let handle = tm.add_current_resources(resource);
                SyscallOutcome::Respond(SyscallResponse::Open { handle: Ok(handle) })
            },
            Err(e) => SyscallOutcome::Respond(SyscallResponse::Open { handle: Err(e) }),
        },
        Syscall::Read { handle, buf } => match tm.get_current_resource(handle) {
            Some(resource) => {
                let pended = tm.pend_current();
                SyscallOutcome::Pend { handle: pended, job: KernelJob::Read { resource, buf } }
            },
            None => SyscallOutcome::Respond(
                SyscallResponse::Read { len: Err(ResourceError::NotExists) },
            ),
        },
        Syscall::Halt => SyscallOutcome::Halt,
        Syscall::Exit => SyscallOutcome::Killed(tm.drop_current()),
    }
}

} // verus!
