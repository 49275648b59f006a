use vstd::prelude::*;

use crate::broadcast::{delivered, live_subs, waiters, Sender};
use crate::executor::{KernelTaskExecutor, READY_CAPACITY};
use crate::frame::rpl;
use crate::task::{TaskManager, IDLE_ID};
use crate::time::{after_firing, fired_at, SliceTimer};

verus! {

/// First vector of the interrupts the local APIC raises.
pub const USER_INTERRUPT_OFFSET: u8 = 32;

/// First vector of the interrupts the I/O APICs raise.
pub const IO_APIC_INTERRUPT_OFFSET: u8 = 128;

/// Number of redirection entries of an I/O APIC.
pub const IO_APIC_ENTRIES: u64 = 24;

/// ISA interrupt line of the first serial port.
pub const SERIAL_IRQ: u8 = 4;

/// The interrupt vectors the kernel serves with a frame-saving handler.
#[derive(Debug, Clone, Copy, PartialEq, Eq, Structural)]
pub enum UserInterrupt {
    ApicTimer,
    ApicError,
    ApicSpurious,
    Syscall,
    SerialIn,
}

impl UserInterrupt {
    pub open spec fn vector(self) -> u8 {
        match self {
            UserInterrupt::ApicTimer => 32,
            UserInterrupt::ApicError => 51,
            UserInterrupt::ApicSpurious => 63,
            UserInterrupt::Syscall => 114,
            UserInterrupt::SerialIn => 132,
        }
    }

    /// The vector's index in the interrupt descriptor table.
    pub fn as_index(self) -> (r: usize)
        ensures
            r == self.vector(),
    {
        match self {
            UserInterrupt::ApicTimer => USER_INTERRUPT_OFFSET as usize,
            UserInterrupt::ApicError => (USER_INTERRUPT_OFFSET + 19) as usize,
            UserInterrupt::ApicSpurious => (USER_INTERRUPT_OFFSET + 31) as usize,
            UserInterrupt::Syscall => 114,
            UserInterrupt::SerialIn => (IO_APIC_INTERRUPT_OFFSET + SERIAL_IRQ) as usize,
        }
    }

    /// The I/O APIC input line of a vector the I/O APICs raise.
    pub fn irq_number(self) -> (r: u8)
        requires
            self.vector() >= IO_APIC_INTERRUPT_OFFSET,
        ensures
            r == self.vector() - IO_APIC_INTERRUPT_OFFSET,
    {
        (self.as_index() as u8) - IO_APIC_INTERRUPT_OFFSET
    }
}

/// How the machine exits through the debug-exit port.
#[derive(Debug, Clone, Copy, PartialEq, Eq, Structural)]
pub enum ExitCode {
    Success,
    Failed,
}

impl ExitCode {
    /// The value written to the debug-exit port.
    pub fn code(self) -> (r: u32)
        ensures
            r == match self {
                ExitCode::Success => 0x10u32,
                ExitCode::Failed => 0x11u32,
            },
    {
        match self {
            ExitCode::Success => 0x10,
            ExitCode::Failed => 0x11,
        }
    }
}

/// What the ACPI tables say of one I/O APIC: its register address and the
/// first global system interrupt it serves.
#[derive(Debug, Clone, Copy, PartialEq, Eq, Structural)]
pub struct IoApicInfo {
    pub address: u32,
    pub global_system_interrupt_base: u32,
}

/// An ACPI interrupt source override: ISA line `isa_source` arrives on
/// global system interrupt `global_system_interrupt`.
#[derive(Debug, Clone, Copy, PartialEq, Eq, Structural)]
pub struct InterruptSourceOverride {
    pub isa_source: u8,
    pub global_system_interrupt: u32,
}

/// Whether an I/O APIC serving from `base` serves `gsi`.
pub open spec fn io_apic_handles(base: u32, gsi: u32) -> bool {
    base <= gsi && gsi < base + IO_APIC_ENTRIES
}

impl IoApicInfo {
    pub fn handle(&self, global_system_interrupt: u32) -> (r: bool)
        ensures
            r == io_apic_handles(self.global_system_interrupt_base, global_system_interrupt),
    {
        global_system_interrupt >= self.global_system_interrupt_base && (global_system_interrupt
            as u64) < (self.global_system_interrupt_base as u64) + IO_APIC_ENTRIES
    }
}

/// The global system interrupt ISA line `irq` arrives on: the first
/// override's for that line, else the line's own number.
pub open spec fn gsi_of(overrides: Seq<InterruptSourceOverride>, irq: u8) -> u32
    decreases overrides.len(),
{
    if overrides.len() == 0 {
        irq as u32
    } else if overrides[0].isa_source == irq {
        overrides[0].global_system_interrupt
    } else {
        gsi_of(overrides.skip(1), irq)
    }
}

/// Routes ISA line `irq`: the index of the first I/O APIC that serves its
/// global system interrupt, and that interrupt; `None` when no I/O APIC
/// serves it.
pub fn irq_to_interrupt(
    io_apics: &Vec<IoApicInfo>,
    overrides: &Vec<InterruptSourceOverride>,
    irq: u8,
) -> (r: Option<(usize, u32)>)
    ensures
        ({
            let gsi = gsi_of(overrides@, irq);
            match r {
                Some((i, g)) => {
                    &&& g == gsi
                    &&& i < io_apics@.len()
                    &&& io_apic_handles(io_apics@[i as int].global_system_interrupt_base, gsi)
                    &&& forall|j: int|
                        0 <= j < i ==> !io_apic_handles(
                            (#[trigger] io_apics@[j]).global_system_interrupt_base,
                            gsi,
                        )
                },
                None => forall|j: int|
                    0 <= j < io_apics@.len() ==> !io_apic_handles(
                        (#[trigger] io_apics@[j]).global_system_interrupt_base,
                        gsi,
                    ),
            }
        }),
{
    let mut k: usize = 0;
    assert(overrides@.skip(0) =~= overrides@);
    while k < overrides.len() && overrides[k].isa_source != irq
        invariant
            0 <= k <= overrides@.len(),
            gsi_of(overrides@, irq) == gsi_of(overrides@.skip(k as int), irq),
        decreases overrides@.len() - k,
    {
        let ghost rest = overrides@.skip(k as int);
        k = k + 1;
        assert(rest.skip(1) =~= overrides@.skip(k as int));
    }
    let gsi = if k < overrides.len() {
        overrides[k].global_system_interrupt
    } else {
        irq as u32
    };
    assert(gsi == gsi_of(overrides@, irq));
    let mut i: usize = 0;
    while i < io_apics.len()
        invariant
            0 <= i <= io_apics@.len(),
            gsi == gsi_of(overrides@, irq),
            forall|j: int|
                0 <= j < i ==> !io_apic_handles(
                    (#[trigger] io_apics@[j]).global_system_interrupt_base,
                    gsi,
                ),
        decreases io_apics@.len() - i,
    {
        if io_apics[i].handle(gsi) {
            return Some((i, gsi));
        }
        i = i + 1;
    }
    None
}

/// The vector an I/O APIC raises for global system interrupt `gsi`;
/// `None` when it passes the last vector.
pub fn io_apic_vector(gsi: u32) -> (r: Option<u8>)
    ensures
        gsi + IO_APIC_INTERRUPT_OFFSET <= 255 ==> r == Some((gsi + IO_APIC_INTERRUPT_OFFSET) as u8),
        gsi + IO_APIC_INTERRUPT_OFFSET > 255 ==> r.is_none(),
{
    if gsi <= 127 {
        Some(gsi as u8 + IO_APIC_INTERRUPT_OFFSET)
    } else {
        None
    }
}

/// Where an ISA line is delivered: the I/O APIC that serves it, its global
/// system interrupt, and the vector raised.
#[derive(Debug, Clone, Copy, PartialEq, Eq, Structural)]
pub struct IrqRoute {
    pub io_apic: usize,
    pub global_system_interrupt: u32,
    pub vector: u8,
}

/// The I/O APICs of the machine and the interrupt source overrides, as the
/// ACPI tables list them.
pub struct IoApics {
    pub io_apics: Vec<IoApicInfo>,
    pub overrides: Vec<InterruptSourceOverride>,
}

/// Whether `r` is where ISA line `irq` is delivered.
pub open spec fn is_route(
    io_apics: Seq<IoApicInfo>,
    overrides: Seq<InterruptSourceOverride>,
    irq: u8,
    r: IrqRoute,
) -> bool {
    let gsi = gsi_of(overrides, irq);
    &&& r.global_system_interrupt == gsi
    &&& r.io_apic < io_apics.len()
    &&& io_apic_handles(io_apics[r.io_apic as int].global_system_interrupt_base, gsi)
    &&& forall|j: int|
        0 <= j < r.io_apic ==> !io_apic_handles(
            (#[trigger] io_apics[j]).global_system_interrupt_base,
            gsi,
        )
    &&& r.vector == gsi + IO_APIC_INTERRUPT_OFFSET
}

/// Whether ISA line `irq` can be delivered: some I/O APIC serves its global
/// system interrupt, and the vector it would raise exists.
pub open spec fn routable(
    io_apics: Seq<IoApicInfo>,
    overrides: Seq<InterruptSourceOverride>,
    irq: u8,
) -> bool {
    let gsi = gsi_of(overrides, irq);
    &&& exists|j: int|
        0 <= j < io_apics.len() && io_apic_handles(
            (#[trigger] io_apics[j]).global_system_interrupt_base,
            gsi,
        )
    &&& gsi + IO_APIC_INTERRUPT_OFFSET <= 255
}

impl IoApics {
    /// Routes ISA line `irq` to the vector its global system interrupt maps
    /// to; the redirection entry (fixed mode, masked, level triggered, to
    /// CPU 0) is then written by the caller. `None` when it cannot be
    /// routed.
    pub fn enable_irq(&self, irq: u8) -> (r: Option<IrqRoute>)
        ensures
            match r {
                Some(route) => is_route(self.io_apics@, self.overrides@, irq, route),
                None => !routable(self.io_apics@, self.overrides@, irq),
            },
    {
        match irq_to_interrupt(&self.io_apics, &self.overrides, irq) {
            Some((io_apic, gsi)) => match io_apic_vector(gsi) {
                Some(vector) => Some(IrqRoute { io_apic, global_system_interrupt: gsi, vector }),
                None => None,
            },
            None => None,
        }
    }
}

/// Takes the I/O APICs and overrides the ACPI tables list, and routes the
/// serial port's line.
pub fn init_io_apic(
    io_apics: Vec<IoApicInfo>,
    overrides: Vec<InterruptSourceOverride>,
) -> (r: (IoApics, Option<IrqRoute>))
    ensures
        r.0.io_apics@ == io_apics@,
        r.0.overrides@ == overrides@,
        match r.1 {
            Some(route) => is_route(io_apics@, overrides@, SERIAL_IRQ, route),
            None => !routable(io_apics@, overrides@, SERIAL_IRQ),
        },
{
    let apics = IoApics { io_apics, overrides };
    let route = apics.enable_irq(SERIAL_IRQ);
    (apics, route)
}

/// Routes the serial port's line, which the ACPI tables must let an I/O
/// APIC serve on the serial input vector.
pub fn enable_irqs(io_apics: &IoApics) -> (r: IrqRoute)
    requires
        routable(io_apics.io_apics@, io_apics.overrides@, SERIAL_IRQ),
        gsi_of(io_apics.overrides@, SERIAL_IRQ) + IO_APIC_INTERRUPT_OFFSET
            == UserInterrupt::SerialIn.vector(),
    ensures
        is_route(io_apics.io_apics@, io_apics.overrides@, SERIAL_IRQ, r),
        r.vector == UserInterrupt::SerialIn.vector(),
{
    io_apics.enable_irq(SERIAL_IRQ).unwrap()
}

/// The smaller of two naturals.
pub open spec fn min_nat(a: nat, b: nat) -> nat {
    if a <= b {
        a
    } else {
        b
    }
}

/// Queues each of `ids` to be polled, in order, as far as the ready queue
/// has room. Returns whether all fit.
pub fn wake_all(executor: &mut KernelTaskExecutor, ids: &Vec<u64>) -> (r: bool)
    requires
        old(executor).wf(),
    ensures
        final(executor).wf(),
        final(executor).tasks_spec() == old(executor).tasks_spec(),
        final(executor).next_id_spec() == old(executor).next_id_spec(),
        ({
            let all = old(executor).ready_spec() + ids@;
            &&& r == (all.len() <= READY_CAPACITY)
            &&& final(executor).ready_spec() == all.take(
                min_nat(all.len(), READY_CAPACITY as nat) as int,
            )
        }),
{
    let mut ok = true;
    let mut i: usize = 0;
    let ghost all = old(executor).ready_spec() + ids@;
    assert(executor.ready_spec() =~= all.take(old(executor).ready_spec().len() as int));
    while i < ids.len()
        invariant
            executor.wf(),
            executor.tasks_spec() == old(executor).tasks_spec(),
            executor.next_id_spec() == old(executor).next_id_spec(),
            0 <= i <= ids@.len(),
            all == old(executor).ready_spec() + ids@,
            ok == (old(executor).ready_spec().len() + i <= READY_CAPACITY),
            executor.ready_spec() == all.take(
                min_nat((old(executor).ready_spec().len() + i) as nat, READY_CAPACITY as nat) as int,
            ),
        decreases ids@.len() - i,
    {
        let woke = executor.wake(ids[i]);
        if !woke {
            ok = false;
        }
        i = i + 1;
        assert(executor.ready_spec() =~= all.take(
            min_nat((old(executor).ready_spec().len() + i) as nat, READY_CAPACITY as nat) as int,
        ));
    }
    ok
}

/// The kernel side of a timer tick: counts the slice, removes the deadline
/// it reached, and queues the kernel tasks that waited on it, in order, as
/// far as the ready queue has room. Returns whether they all fit.
pub fn apic_timer_inner(timer: &mut SliceTimer, executor: &mut KernelTaskExecutor) -> (r: bool)
    requires
        old(timer).wf(),
        old(timer).count_spec() < u64::MAX,
        old(executor).wf(),
    ensures
        final(timer).wf(),
        final(executor).wf(),
        final(timer).count_spec() == old(timer).count_spec() + 1,
        final(timer).deadlines_spec() == after_firing(
            old(timer).deadlines_spec(),
            final(timer).count_spec(),
        ),
        final(executor).tasks_spec() == old(executor).tasks_spec(),
        final(executor).next_id_spec() == old(executor).next_id_spec(),
        ({
            let fired = fired_at(old(timer).deadlines_spec(), final(timer).count_spec());
            let all = old(executor).ready_spec() + fired;
            &&& r == (all.len() <= READY_CAPACITY)
            &&& final(executor).ready_spec() == all.take(
                min_nat(all.len(), READY_CAPACITY as nat) as int,
            )
            &&& r ==> final(executor).ready_spec() == all
        }),
{
    let fired = timer.inc_slice();
    let r = wake_all(executor, &fired);
    proof {
        let all = old(executor).ready_spec() + fired@;
        if r {
            assert(all.take(all.len() as int) =~= all);
        }
    }
    r
}

/// The kernel side of a serial interrupt: delivers the received byte to
/// every live subscriber of the serial channel and queues the kernel tasks
/// waiting on them. Returns whether they all fit in the ready queue.
pub fn serial_in_inner(serial: &mut Sender<u8>, executor: &mut KernelTaskExecutor, byte: u8) -> (r: bool)
    requires
        old(serial).wf(),
        old(executor).wf(),
    ensures
        final(serial).wf(),
        final(executor).wf(),
        final(serial).subs_spec().len() == live_subs(old(serial).subs_spec()).len(),
        forall|i: int|
            0 <= i < live_subs(old(serial).subs_spec()).len() ==> delivered(
                #[trigger] final(serial).subs_spec()[i],
                live_subs(old(serial).subs_spec())[i],
                byte,
            ),
        final(executor).tasks_spec() == old(executor).tasks_spec(),
        old(executor).ready_spec().len() + waiters(live_subs(old(serial).subs_spec())).len()
            <= READY_CAPACITY ==> r && final(executor).ready_spec() == old(executor).ready_spec()
            + waiters(live_subs(old(serial).subs_spec())),
{
    let woken = serial.send_all(byte);
    let r = wake_all(executor, &woken);
    proof {
        let all = old(executor).ready_spec() + woken@;
        if all.len() <= READY_CAPACITY {
            assert(all.take(all.len() as int) =~= all);
        }
    }
    r
}

/// What a page fault leads to.
pub enum FaultAction {
    /// A fault at kernel privilege: the machine stops with failure.
    Fatal,
    /// The faulting user task was killed; these frames go back to the frame
    /// allocator.
    Killed(Vec<u64>),
}

/// Decides on a page fault whose hardware frame holds `code_segment`. A
/// fault in the kernel is fatal; a user task that faults is killed.
pub fn page_fault(tm: &mut TaskManager, code_segment: u64) -> (r: FaultAction)
    requires
        old(tm).wf(),
        rpl(code_segment) != 0 ==> (old(tm).running_spec() matches Some(t) && t.info.id != IDLE_ID),
    ensures
        final(tm).wf(),
        rpl(code_segment) == 0 <==> r is Fatal,
        rpl(code_segment) == 0 ==> *final(tm) == *old(tm),
        rpl(code_segment) != 0 ==> final(tm).running_spec().is_none() && final(tm).loaded_root_spec()
            == final(tm).kernel_root() && final(tm).ready_spec() == old(tm).ready_spec()
            && final(tm).pending_spec() == old(tm).pending_spec(),
        r matches FaultAction::Killed(f) ==> f@ == old(
            tm,
        ).running_spec().unwrap().page_table->User_0.allocated_spec(),
{
    if code_segment % 4 == 0 {
        FaultAction::Fatal
    } else {
        FaultAction::Killed(tm.drop_current())
    }
}

} // verus!
