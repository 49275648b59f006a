use vstd::prelude::*;

use crate::broadcast::Sender;
use crate::handler::KernelJob;
use crate::resource::{read_took_buffered, BoxedResource, LineRead, Resource};
use crate::syscall::{SyscallResponse, UserSlice};
use crate::task::{
    enqueue, is_first_pending, is_pending, PendingTaskHandle, PreScheduling, Task, TaskManager,
};
use crate::time::{fired_at, SliceTimer};

verus! {

/// A kernel task that finishes a pended syscall.
pub enum Job {
    /// Wake the task after `slice` ticks; `registered` once the deadline is
    /// set.
    Sleep { handle: PendingTaskHandle, slice: u64, registered: bool },
    /// Read a line of at most `buf.len` bytes from `resource` into `buf`.
    Read { handle: PendingTaskHandle, resource: BoxedResource, buf: UserSlice, line: LineRead },
}

impl Job {
    pub open spec fn handle_id(&self) -> u64 {
        match self {
            Job::Sleep { handle, .. } => handle.id_spec(),
            Job::Read { handle, .. } => handle.id_spec(),
        }
    }

    pub open spec fn wf(&self) -> bool {
        match self {
            Job::Sleep { .. } => true,
            Job::Read { line, buf, .. } => line.wf() && line.max_len_spec() == buf.len,
        }
    }

    /// The id of the task the job finishes.
    pub fn pending_id(&self) -> (r: u64)
        ensures
            r == self.handle_id(),
    {
        match self {
            Job::Sleep { handle, .. } => handle.id(),
            Job::Read { handle, .. } => handle.id(),
        }
    }

    /// The job that finishes a syscall pended under `handle`.
    pub fn new(handle: PendingTaskHandle, job: KernelJob) -> (r: Job)
        requires
            job matches KernelJob::Read { buf, .. } ==> buf.len <= usize::MAX,
        ensures
            r.wf(),
            r.handle_id() == handle.id_spec(),
            match job {
                KernelJob::Sleep { slice } => r == (Job::Sleep { handle, slice, registered: false }),
                KernelJob::Read { resource, buf } => r matches Job::Read { resource: res, buf: b, line, .. }
                    && res == resource && b == buf && line.taken_spec().len() == 0,
            },
    {
        match job {
            KernelJob::Sleep { slice } => Job::Sleep { handle, slice, registered: false },
            KernelJob::Read { resource, buf } => Job::Read {
                handle,
                resource,
                buf,
                line: LineRead::new(buf.len as usize),
            },
        }
    }
}

/// The pended task `id` was moved to the back of its class's queue, armed to
/// copy `data` to `copy_to` and then write `response` when it next runs.
pub open spec fn resumed(
    old_tm: TaskManager,
    new_tm: TaskManager,
    id: u64,
    copy_to: u64,
    data: Seq<u8>,
    response: SyscallResponse,
) -> bool {
    !is_pending(new_tm.pending_spec(), id) && exists|i: int, u: Task|
        #![trigger is_first_pending(old_tm.pending_spec(), id, i), enqueue(old_tm.ready_spec(), u)]
        {
            &&& is_first_pending(old_tm.pending_spec(), id, i)
            &&& new_tm.pending_spec() == old_tm.pending_spec().remove(i)
            &&& new_tm.ready_spec() == enqueue(old_tm.ready_spec(), u)
            &&& u == Task { pre_scheduling: u.pre_scheduling, ..old_tm.pending_spec()[i].task }
            &&& u.pre_scheduling matches Some(p) && p.copy_to == copy_to && p.data@ == data
                && p.response == response
        }
}

/// One poll of job `id`. A sleep first registers its deadline; polled again
/// (woken by the deadline) it resumes its task with `Success`. A read takes
/// the terminal's buffered bytes; once the line ends it resumes its task so
/// that the line is copied to the buffer, with the line's length. Returns
/// the job while it is not finished.
pub fn poll_job(
    job: Job,
    id: u64,
    tm: &mut TaskManager,
    serial: &mut Sender<u8>,
    timer: &mut SliceTimer,
) -> (r: Option<Job>)
    requires
        job.wf(),
        old(tm).wf(),
        old(serial).wf(),
        old(timer).wf(),
        is_pending(old(tm).pending_spec(), job.handle_id()),
        job matches Job::Sleep { slice, registered, .. } ==> (!registered ==> old(timer).count_spec()
            + slice <= u64::MAX),
    ensures
        final(tm).wf(),
        final(serial).wf(),
        final(timer).wf(),
        final(tm).running_spec() == old(tm).running_spec(),
        final(timer).count_spec() == old(timer).count_spec(),
        r matches Some(j) ==> j.wf() && j.handle_id() == job.handle_id() && *final(tm) == *old(tm),
        match job {
            Job::Sleep { slice, registered, .. } => if !registered {
                &&& r matches Some(Job::Sleep { slice: s, registered: true, .. }) && s == slice
                &&& slice > 0 ==> fired_at(
                    final(timer).deadlines_spec(),
                    (old(timer).count_spec() + slice) as u64,
                ) == fired_at(
                    old(timer).deadlines_spec(),
                    (old(timer).count_spec() + slice) as u64,
                ).push(id)
                &&& *final(serial) == *old(serial)
            } else {
                &&& r.is_none()
                &&& resumed(
                    *old(tm),
                    *final(tm),
                    job.handle_id(),
                    0,
                    Seq::empty(),
                    SyscallResponse::Success,
                )
                &&& *final(timer) == *old(timer)
                &&& *final(serial) == *old(serial)
            },
            Job::Read { resource, buf, line, .. } => {
                &&& *final(timer) == *old(timer)
                &&& r matches Some(Job::Read { resource: res, buf: b, line: l, .. }) ==> {
                    &&& res == resource
                    &&& b == buf
                    &&& read_took_buffered(
                        old(serial).subs_spec(),
                        final(serial).subs_spec(),
                        resource.receiver_spec(),
                        line.taken_spec(),
                        l.taken_spec(),
                        line.max_len_spec(),
                        false,
                        id,
                    )
                }
                &&& r is None ==> exists|l: LineRead|
                    {
                        &&& l.wf()
                        &&& l.max_len_spec() == line.max_len_spec()
                        &&& #[trigger] read_took_buffered(
                            old(serial).subs_spec(),
                            final(serial).subs_spec(),
                            resource.receiver_spec(),
                            line.taken_spec(),
                            l.taken_spec(),
                            line.max_len_spec(),
                            true,
                            id,
                        )
                        &&& resumed(
                            *old(tm),
                            *final(tm),
                            job.handle_id(),
                            buf.addr,
                            l.line_spec(),
                            SyscallResponse::Read { len: Ok(l.line_spec().len() as u64) },
                        )
                    }
            },
        },
{
    match job {
        Job::Sleep { handle, slice, registered } => {
            if !registered {
                timer.sleep(slice, id);
                Some(Job::Sleep { handle, slice, registered: true })
            } else {
                let ghost hid = handle.id_spec();
                let empty: Vec<u8> = Vec::new();
                let ghost e = empty;
                handle.resume_syscall_response(tm, 0, empty, SyscallResponse::Success);
                proof {
                    let i = choose|i: int| #[trigger] is_first_pending(old(tm).pending_spec(), hid, i) && {
                        let t = old(tm).pending_spec()[i].task;
                        &&& tm.pending_spec() == old(tm).pending_spec().remove(i)
                        &&& tm.ready_spec() == enqueue(
                            old(tm).ready_spec(),
                            Task { pre_scheduling: Some(PreScheduling { copy_to: 0, data: e, response: SyscallResponse::Success }), ..t },
                        )
                    };
                    assert(is_first_pending(old(tm).pending_spec(), hid, i));
                }
                None
            }
        },
        Job::Read { handle, resource, buf, line } => {
            let mut line = line;
            let ghost taken0 = line.taken_spec();
            let done = resource.read(serial, &mut line, id);
            if !done {
                Some(Job::Read { handle, resource, buf, line })
            } else {
                let ghost hid = handle.id_spec();
                let ghost l = line;
                let data = line.into_line();
                let len = data.len() as u64;
                let ghost d = data;
                handle.resume_syscall_response(tm, buf.addr, data, SyscallResponse::Read { len: Ok(len) });
                proof {
                    let i = choose|i: int| #[trigger] is_first_pending(old(tm).pending_spec(), hid, i) && {
                        let t = old(tm).pending_spec()[i].task;
                        &&& tm.pending_spec() == old(tm).pending_spec().remove(i)
                        &&& tm.ready_spec() == enqueue(
                            old(tm).ready_spec(),
                            Task { pre_scheduling: Some(PreScheduling { copy_to: buf.addr, data: d, response: SyscallResponse::Read { len: Ok(len) } }), ..t },
                        )
                    };
                    assert(is_first_pending(old(tm).pending_spec(), hid, i));
                    assert(read_took_buffered(
                        old(serial).subs_spec(),
                        serial.subs_spec(),
                        resource.receiver_spec(),
                        taken0,
                        l.taken_spec(),
                        l.max_len_spec(),
                        true,
                        id,
                    ));
                }
                None
            }
        },
    }
}

} // verus!
