use litchi::memory::{Mapping, USER_ACCESSIBLE, PRESENT, WRITABLE};
use litchi::task::{IDLE_ID, USER_HEAP_BASE, USER_START_ID};
use litchi::interrupt::FaultAction;
use litchi::{
    page_fault, poll_job, handle_syscall, check_syscall_legal, HeapExtension, PageTableWrapper, PreScheduling, Sender, Syscall,
    SyscallBuffer, SyscallOutcome, SyscallResponse, Out, SliceTimer, TaskManager, UserSlice,
    KernelJob,
};

const KERNEL_ROOT: u64 = 1;

fn new_manager() -> TaskManager {
    let kernel = PageTableWrapper::kernel(KERNEL_ROOT, &Vec::new());
    TaskManager::new(kernel, 0xffff_8000_0010_0000, 0x6667_0000_0000)
}

fn user_space(tm: &TaskManager, root: u64, extra: &[Mapping]) -> PageTableWrapper {
    let mut pt = PageTableWrapper::new_user(root, tm.kernel_page_table());
    for m in extra {
        pt.map_to(m.page, m.frame, m.flags);
    }
    pt
}

fn load_task(tm: &mut TaskManager, name: &str, root: u64) {
    let pt = user_space(tm, root, &[]);
    let frames: Vec<u64> = (0..20).map(|k| root * 1000 + k).collect();
    tm.load_user(name.to_string(), pt, 0x40_0000, &frames);
}

fn running_id(tm: &TaskManager) -> u64 {
    tm.current_info().unwrap().id
}

#[test]
fn timer_preemption_is_fifo() {
    let mut tm = new_manager();
    load_task(&mut tm, "a", 10);
    load_task(&mut tm, "b", 11);
    load_task(&mut tm, "c", 12);
    let mut seen = Vec::new();
    let mut s = tm.schedule();
    seen.push(running_id(&tm));
    for _ in 0..3 {
        tm.put_back(s.frame, true);
        s = tm.schedule();
        seen.push(running_id(&tm));
    }
    assert_eq!(seen, vec![1024, 1025, 1026, 1024]);
}

#[test]
fn syscall_and_serial_do_not_yield() {
    let mut tm = new_manager();
    let mut serial: Sender<u8> = Sender::new();
    load_task(&mut tm, "a", 10);
    load_task(&mut tm, "b", 11);
    let s = tm.schedule();
    assert_eq!(running_id(&tm), 1024);
    // serial interrupt
    tm.put_back(s.frame, false);
    let s = tm.schedule();
    assert!(!s.switched);
    assert_eq!(running_id(&tm), 1024);
    // syscall
    tm.put_back(s.frame, false);
    let out = handle_syscall(&mut tm, &mut serial, Syscall::GetTaskId, &Vec::new(), &Vec::new());
    assert!(matches!(out, SyscallOutcome::Respond(SyscallResponse::GetTaskId { task_id: 1024 })));
    let s = tm.schedule();
    assert_eq!(running_id(&tm), 1024);
    // timer
    tm.put_back(s.frame, true);
    tm.schedule();
    assert_eq!(running_id(&tm), 1025);
}

#[test]
fn heap_oom_kills_caller() {
    let mut tm = new_manager();
    let mut serial: Sender<u8> = Sender::new();
    load_task(&mut tm, "a", 10);
    load_task(&mut tm, "b", 11);
    let s = tm.schedule();
    tm.put_back(s.frame, false);
    let top = USER_HEAP_BASE + 2 * 4096;
    assert_eq!(tm.heap_pages_needed(top), 2);
    // the allocator fails on the second frame
    let frames = vec![500u64];
    let out = handle_syscall(&mut tm, &mut serial, Syscall::ExtendHeap { top }, &Vec::new(), &frames);
    match out {
        SyscallOutcome::Killed(released) => assert!(released.contains(&500)),
        _ => panic!("caller not killed"),
    }
    assert!(!tm.has_running());
    assert_eq!(tm.loaded_root(), KERNEL_ROOT);
    tm.schedule();
    assert_eq!(running_id(&tm), 1025);
}

#[test]
fn pending_resume_carries_page_table() {
    let mut tm = new_manager();
    let mut serial: Sender<u8> = Sender::new();
    let mut timer = SliceTimer::new();
    load_task(&mut tm, "a", 10);
    load_task(&mut tm, "b", 11);
    let mut buffer_a: SyscallBuffer<Out> = SyscallBuffer::new();
    let mut buffer_b: SyscallBuffer<Out> = SyscallBuffer::new();
    buffer_a.response(SyscallResponse::GetTaskId { task_id: 7 });
    buffer_b.response(SyscallResponse::GetTaskId { task_id: 7 });

    let s = tm.schedule();
    tm.put_back(s.frame, false);
    let out = handle_syscall(&mut tm, &mut serial, Syscall::Sleep { slice: 5 }, &Vec::new(), &Vec::new());
    let (handle, slice) = match out {
        SyscallOutcome::Pend { handle, job: KernelJob::Sleep { slice } } => (handle, slice),
        _ => panic!("caller not pended"),
    };
    assert_eq!(slice, 5);
    assert!(tm.is_pending(1024));
    timer.sleep(slice, 77);
    let mut fired = Vec::new();
    for _ in 0..5 {
        // B runs meanwhile
        let s = tm.schedule();
        assert_eq!(running_id(&tm), 1025);
        tm.put_back(s.frame, true);
        fired.extend(timer.inc_slice());
    }
    assert_eq!(fired, vec![77]);
    handle.resume_syscall_response(&mut tm, 0, Vec::new(), SyscallResponse::Success);
    // B is still running until its next tick
    let s = tm.schedule();
    tm.put_back(s.frame, true);
    let s = tm.schedule();
    assert_eq!(running_id(&tm), 1024);
    assert!(s.switched);
    assert_eq!(s.root, 10);
    let pre: PreScheduling = s.pre_scheduling.expect("response pending");
    // the glue writes the response into the buffer of the loaded space
    let target = if s.root == 10 { &mut buffer_a } else { &mut buffer_b };
    target.response(pre.response);
    assert!(matches!(buffer_a.get_response(), Some(SyscallResponse::Success)));
    assert!(matches!(buffer_b.get_response(), Some(SyscallResponse::GetTaskId { task_id: 7 })));
}

#[test]
fn zombie_is_reclaimed() {
    let mut tm = new_manager();
    load_task(&mut tm, "a", 10);
    let s = tm.schedule();
    tm.put_back(s.frame, false);
    let handle = tm.pend_current();
    assert_eq!(tm.loaded_root(), KERNEL_ROOT);
    let next = tm.next_id();
    tm.drop_handle(handle);
    assert!(tm.is_pending(1024));
    let s = tm.schedule();
    assert_eq!(s.reclaimed.len(), 1);
    assert_eq!(s.reclaimed[0].info.id, 1024);
    assert!(!tm.is_pending(1024));
    assert_eq!(running_id(&tm), IDLE_ID);
    assert_eq!(tm.next_id(), next);
}

#[test]
fn only_running_task_lacks_frame() {
    let mut tm = new_manager();
    load_task(&mut tm, "a", 10);
    let s = tm.schedule();
    assert!(tm.current_frame().is_none());
    tm.put_back(s.frame, false);
    assert!(tm.current_frame().is_some());
}

#[test]
fn idle_runs_when_nothing_else() {
    let mut tm = new_manager();
    let s = tm.schedule();
    assert_eq!(running_id(&tm), IDLE_ID);
    assert_eq!(s.root, KERNEL_ROOT);
    assert_eq!(s.frame.frame.code_segment, 0x08);
    assert_eq!(s.frame.frame.cpu_flags, 0x200);
    // yielding the idle task to itself does nothing
    tm.put_back(s.frame, true);
    assert!(tm.has_running());
    assert_eq!(running_id(&tm), IDLE_ID);
}

#[test]
fn user_class_preempts_idle() {
    let mut tm = new_manager();
    let s = tm.schedule();
    tm.put_back(s.frame, false);
    load_task(&mut tm, "a", 10);
    tm.yield_current();
    assert!(!tm.has_running());
    assert_eq!(tm.ready_len(255), 1);
    let s = tm.schedule();
    assert_eq!(running_id(&tm), 1024);
    assert_eq!(s.root, 10);
    assert_eq!(tm.loaded_root(), 10);
    assert_eq!(s.frame.frame.instruction_pointer, 0x40_0000);
    assert_eq!(s.frame.frame.stack_pointer, 0x1889_0000_0000);
    assert_eq!(s.frame.frame.code_segment, 0x13);
    assert_eq!(s.frame.ds, 0x1b);
}

#[test]
fn load_user_numbers_tasks_and_maps_buffers() {
    let mut tm = new_manager();
    assert_eq!(tm.next_id(), USER_START_ID);
    load_task(&mut tm, "a", 10);
    load_task(&mut tm, "b", 11);
    assert_eq!(tm.next_id(), USER_START_ID + 2);
    assert_eq!(tm.ready_len(128), 2);
    tm.schedule();
    let pt = tm.current_page_table().unwrap();
    assert!(pt.check_user_accessible(0x1333_0000_0000, 10 * 4096));
    assert!(pt.check_user_accessible(0x1334_0000_0000, 10 * 4096));
    assert!(!pt.check_user_accessible(0x1333_0000_0000, 10 * 4096 + 1));
    assert_eq!(tm.current_heap_top(), Some(USER_HEAP_BASE));
}

#[test]
fn drop_current_loads_kernel_space_first() {
    let mut tm = new_manager();
    load_task(&mut tm, "a", 10);
    let s = tm.schedule();
    assert_eq!(tm.loaded_root(), 10);
    tm.put_back(s.frame, false);
    let released = tm.drop_current();
    assert_eq!(tm.loaded_root(), KERNEL_ROOT);
    assert!(!tm.has_running());
    // the root frame and the twenty buffer frames
    assert_eq!(released.len(), 21);
    assert_eq!(released[0], 10);
    assert!(released.contains(&10_019));
}

#[test]
fn extend_heap_aligns_and_never_shrinks() {
    let mut tm = new_manager();
    load_task(&mut tm, "a", 10);
    let s = tm.schedule();
    tm.put_back(s.frame, false);
    let top = USER_HEAP_BASE + 4096 + 1;
    assert_eq!(tm.heap_pages_needed(top), 2);
    let out = tm.extend_current_heap(top, &vec![600, 601]);
    assert!(matches!(out, HeapExtension::Extended));
    assert_eq!(tm.current_heap_top(), Some(USER_HEAP_BASE + 2 * 4096));
    assert!(tm.current_page_table().unwrap().check_user_accessible(USER_HEAP_BASE, 2 * 4096));
    // a lower top changes nothing
    assert_eq!(tm.heap_pages_needed(USER_HEAP_BASE), 0);
    let out = tm.extend_current_heap(USER_HEAP_BASE, &Vec::new());
    assert!(matches!(out, HeapExtension::Extended));
    assert_eq!(tm.current_heap_top(), Some(USER_HEAP_BASE + 2 * 4096));
}

#[test]
fn heap_range_over_mapped_page_is_not_free() {
    let mut tm = new_manager();
    let page = USER_HEAP_BASE / 4096 + 1;
    let pt = user_space(&tm, 10, &[Mapping { page, frame: 3, flags: PRESENT | WRITABLE | USER_ACCESSIBLE }]);
    tm.load_user("a".to_string(), pt, 0x40_0000, &(0..20).collect());
    let s = tm.schedule();
    tm.put_back(s.frame, false);
    assert!(tm.heap_range_is_free(USER_HEAP_BASE + 4096));
    assert!(!tm.heap_range_is_free(USER_HEAP_BASE + 4097));
    assert!(tm.heap_range_is_free(USER_HEAP_BASE));
}

#[test]
fn illegal_syscall_check_kills_caller() {
    let mut tm = new_manager();
    load_task(&mut tm, "a", 10);
    load_task(&mut tm, "b", 11);
    let s = tm.schedule();
    tm.put_back(s.frame, false);
    assert!(check_syscall_legal(&mut tm, &Syscall::GetTaskId).is_ok());
    assert!(tm.has_running());
    let buf = UserSlice { addr: 0x1333_0000_0000, len: 16 };
    assert!(check_syscall_legal(&mut tm, &Syscall::Read { handle: litchi::ResourceHandle(0), buf }).is_ok());
    assert_eq!(running_id(&tm), 1024);
    let buf = UserSlice { addr: 0x7000_0000, len: 16 };
    let released = check_syscall_legal(&mut tm, &Syscall::Read { handle: litchi::ResourceHandle(0), buf }).unwrap_err();
    assert_eq!(released.len(), 21);
    assert!(!tm.has_running());
    assert_eq!(tm.loaded_root(), KERNEL_ROOT);
    assert_eq!(tm.ready_len(128), 1);
}

#[test]
fn illegal_pointer_kills_caller() {
    let mut tm = new_manager();
    let mut serial: Sender<u8> = Sender::new();
    load_task(&mut tm, "a", 10);
    let s = tm.schedule();
    tm.put_back(s.frame, false);
    let text = UserSlice { addr: 0x5000_0000, len: 4 };
    let out = handle_syscall(&mut tm, &mut serial, Syscall::Print { str: text }, &Vec::new(), &Vec::new());
    assert!(matches!(out, SyscallOutcome::Killed(_)));
    assert!(!tm.has_running());
    assert_eq!(tm.loaded_root(), KERNEL_ROOT);
}

#[test]
fn print_of_user_string_is_handed_out() {
    let mut tm = new_manager();
    let mut serial: Sender<u8> = Sender::new();
    let page = 0x50_0000 / 4096;
    let pt = user_space(&tm, 10, &[Mapping { page, frame: 3, flags: PRESENT | USER_ACCESSIBLE }]);
    tm.load_user("a".to_string(), pt, 0x40_0000, &(0..20).collect());
    let s = tm.schedule();
    tm.put_back(s.frame, false);
    let text = UserSlice { addr: 0x50_0010, len: 5 };
    let out = handle_syscall(&mut tm, &mut serial, Syscall::Print { str: text }, &Vec::new(), &Vec::new());
    assert!(matches!(out, SyscallOutcome::Print { text: UserSlice { addr: 0x50_0010, len: 5 } }));
    assert!(tm.has_running());
}

#[test]
fn open_read_and_errors() {
    let mut tm = new_manager();
    let mut serial: Sender<u8> = Sender::new();
    let page = 0x50_0000 / 4096;
    let pt = user_space(&tm, 10, &[Mapping { page, frame: 3, flags: PRESENT | WRITABLE | USER_ACCESSIBLE }]);
    tm.load_user("a".to_string(), pt, 0x40_0000, &(0..20).collect());
    let s = tm.schedule();
    tm.put_back(s.frame, false);
    let path = UserSlice { addr: 0x50_0000, len: 12 };
    let out = handle_syscall(&mut tm, &mut serial, Syscall::Open { path }, &b"/device/term".to_vec(), &Vec::new());
    assert!(matches!(out, SyscallOutcome::Respond(SyscallResponse::Open { handle: Ok(litchi::ResourceHandle(0)) })));
    let out = handle_syscall(&mut tm, &mut serial, Syscall::Open { path }, &b"/device/term".to_vec(), &Vec::new());
    assert!(matches!(out, SyscallOutcome::Respond(SyscallResponse::Open { handle: Ok(litchi::ResourceHandle(1)) })));
    let out = handle_syscall(&mut tm, &mut serial, Syscall::Open { path }, &b"/device/disk".to_vec(), &Vec::new());
    assert!(matches!(out, SyscallOutcome::Respond(SyscallResponse::Open { handle: Err(litchi::ResourceError::NotSupported) })));
    let buf = UserSlice { addr: 0x50_0100, len: 256 };
    let out = handle_syscall(&mut tm, &mut serial, Syscall::Read { handle: litchi::ResourceHandle(5), buf }, &Vec::new(), &Vec::new());
    assert!(matches!(out, SyscallOutcome::Respond(SyscallResponse::Read { len: Err(litchi::ResourceError::NotExists) })));
    let out = handle_syscall(&mut tm, &mut serial, Syscall::Read { handle: litchi::ResourceHandle(0), buf }, &Vec::new(), &Vec::new());
    match out {
        SyscallOutcome::Pend { handle, job: KernelJob::Read { buf: b, .. } } => {
            assert_eq!(handle.id(), 1024);
            assert_eq!(b.len, 256);
        }
        _ => panic!("read not pended"),
    }
    assert!(!tm.has_running());
}

#[test]
fn halt_exit_yield_and_zero_sleep() {
    let mut tm = new_manager();
    let mut serial: Sender<u8> = Sender::new();
    load_task(&mut tm, "a", 10);
    load_task(&mut tm, "b", 11);
    let s = tm.schedule();
    tm.put_back(s.frame, false);
    let out = handle_syscall(&mut tm, &mut serial, Syscall::Sleep { slice: 0 }, &Vec::new(), &Vec::new());
    assert!(matches!(out, SyscallOutcome::Respond(SyscallResponse::Success)));
    assert!(tm.has_running());
    let out = handle_syscall(&mut tm, &mut serial, Syscall::Halt, &Vec::new(), &Vec::new());
    assert!(matches!(out, SyscallOutcome::Halt));
    let out = handle_syscall(&mut tm, &mut serial, Syscall::Yield, &Vec::new(), &Vec::new());
    assert!(matches!(out, SyscallOutcome::Respond(SyscallResponse::Success)));
    assert!(!tm.has_running());
    let s = tm.schedule();
    assert_eq!(running_id(&tm), 1025);
    tm.put_back(s.frame, false);
    let out = handle_syscall(&mut tm, &mut serial, Syscall::Exit, &Vec::new(), &Vec::new());
    assert!(matches!(out, SyscallOutcome::Killed(_)));
    assert!(!tm.has_running());
    tm.schedule();
    assert_eq!(running_id(&tm), 1024);
}

#[test]
fn page_faults_kill_users_and_stop_on_kernel() {
    let mut tm = new_manager();
    load_task(&mut tm, "a", 10);
    load_task(&mut tm, "b", 11);
    let s = tm.schedule();
    assert!(matches!(page_fault(&mut tm, 0x08), FaultAction::Fatal));
    assert_eq!(running_id(&tm), 1024);
    match page_fault(&mut tm, s.frame.frame.code_segment) {
        FaultAction::Killed(released) => assert_eq!(released.len(), 21),
        FaultAction::Fatal => panic!("user fault taken as fatal"),
    }
    assert!(!tm.has_running());
    assert_eq!(tm.loaded_root(), KERNEL_ROOT);
    tm.schedule();
    assert_eq!(running_id(&tm), 1025);
}

#[test]
fn jobs_finish_pended_syscalls() {
    let mut tm = new_manager();
    let mut serial: Sender<u8> = Sender::new();
    let mut timer = SliceTimer::new();
    let page = 0x50_0000 / 4096;
    let pt = user_space(&tm, 10, &[Mapping { page, frame: 3, flags: PRESENT | WRITABLE | USER_ACCESSIBLE }]);
    tm.load_user("a".to_string(), pt, 0x40_0000, &(0..20).collect());
    let s = tm.schedule();
    tm.put_back(s.frame, false);
    let path = UserSlice { addr: 0x50_0000, len: 12 };
    handle_syscall(&mut tm, &mut serial, Syscall::Open { path }, &b"/device/term".to_vec(), &Vec::new());
    let buf = UserSlice { addr: 0x50_0100, len: 8 };
    let out = handle_syscall(&mut tm, &mut serial, Syscall::Read { handle: litchi::ResourceHandle(0), buf }, &Vec::new(), &Vec::new());
    let job = match out {
        SyscallOutcome::Pend { handle, job } => litchi::Job::new(handle, job),
        _ => panic!("read not pended"),
    };
    let job = poll_job(job, 4, &mut tm, &mut serial, &mut timer).expect("no input yet");
    serial.send_all(b'o');
    serial.send_all(b'k');
    serial.send_all(b'\n');
    assert!(poll_job(job, 4, &mut tm, &mut serial, &mut timer).is_none());
    assert!(!tm.is_pending(1024));
    let s = tm.schedule();
    let pre = s.pre_scheduling.expect("read result pending");
    assert_eq!(pre.copy_to, 0x50_0100);
    assert_eq!(pre.data, b"ok\n".to_vec());
    assert!(matches!(pre.response, SyscallResponse::Read { len: Ok(3) }));

    tm.put_back(s.frame, false);
    let out = handle_syscall(&mut tm, &mut serial, Syscall::Sleep { slice: 2 }, &Vec::new(), &Vec::new());
    let job = match out {
        SyscallOutcome::Pend { handle, job } => litchi::Job::new(handle, job),
        _ => panic!("sleep not pended"),
    };
    let job = poll_job(job, 5, &mut tm, &mut serial, &mut timer).expect("sleep registered");
    assert!(timer.inc_slice().is_empty());
    assert_eq!(timer.inc_slice(), vec![5]);
    assert!(poll_job(job, 5, &mut tm, &mut serial, &mut timer).is_none());
    let s = tm.schedule();
    assert_eq!(running_id(&tm), 1024);
    assert!(matches!(s.pre_scheduling.unwrap().response, SyscallResponse::Success));
}

#[test]
fn heap_past_user_space_kills() {
    let mut tm = new_manager();
    load_task(&mut tm, "a", 10);
    let s = tm.schedule();
    tm.put_back(s.frame, false);
    let out = tm.extend_current_heap(0x8000_0000_1000, &Vec::new());
    assert!(matches!(out, HeapExtension::Killed(_)));
    assert!(!tm.has_running());
}
