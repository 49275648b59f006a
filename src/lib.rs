//! Execution substrate of a small x86-64 micro-kernel: preemptive user task
//! scheduling with priority classes and an idle task, per-task address
//! spaces with user-access checks, the system-call transport and dispatch,
//! and the cooperative kernel-task machinery (executor bookkeeping,
//! broadcast channels, tick counter, terminal line reading).
//!
//! The hardware side (page-table register, interrupt trampolines, port I/O,
//! the frame allocator) stays outside: the functions here take what it
//! produced as arguments and return what it must do.
pub mod broadcast;
pub mod executor;
pub mod frame;
pub mod handler;
pub mod heap;
pub mod interrupt;
pub mod job;
pub mod memory;
pub mod resource;
pub mod syscall;
pub mod task;
pub mod time;

pub use broadcast::{Receiver, Sender};
pub use executor::{KernelTask, KernelTaskExecutor};
pub use frame::{IstIndex, Registers, StackFrame, TaskFrame};
pub use handler::{check_syscall_legal, handle_syscall, ranges_accessible, KernelJob, SyscallOutcome};
pub use job::{poll_job, Job};
pub use interrupt::{
    apic_timer_inner, enable_irqs, init_io_apic, page_fault, serial_in_inner, ExitCode,
    UserInterrupt,
};
pub use memory::{Mapping, PageTableWrapper};
pub use resource::{
    open, read_line, BoxedResource, LineRead, Resource, ResourceError, ResourceHandle,
    ResourceResult, Term,
};
pub use syscall::{In, Out, Syscall, SyscallBuffer, SyscallResponse, UserSlice};
pub use task::{
    load, HeapExtension, LoadedProgram, PendingTaskHandle, PreScheduling, Priority, Scheduled,
    Task, TaskInfo, TaskManager,
};
pub use time::SliceTimer;
