use vstd::prelude::*;

verus! {

/// Selector of the kernel code segment (table index 1, privilege 0).
pub const KERNEL_CODE_SELECTOR: u64 = 0x08;

/// Selector of the user code segment (table index 2, privilege 3).
pub const USER_CODE_SELECTOR: u64 = 0x13;

/// Selector of the user data segment (table index 3, privilege 3).
pub const USER_DATA_SELECTOR: u64 = 0x1b;

/// RFLAGS with only the interrupt-enable bit set.
pub const RFLAGS_INTERRUPTS_ENABLED: u64 = 0x200;

/// Index of an interrupt stack in the task state segment.
#[derive(Debug, Clone, Copy, PartialEq, Eq, Structural)]
pub enum IstIndex {
    DoubleFault,
    UserInterrupt,
}

impl IstIndex {
    pub fn as_u16(self) -> (r: u16)
        ensures
            r == match self {
                IstIndex::DoubleFault => 0u16,
                IstIndex::UserInterrupt => 1u16,
            },
    {
        match self {
            IstIndex::DoubleFault => 0,
            IstIndex::UserInterrupt => 1,
        }
    }
}

/// The fifteen general-purpose registers, in the order the interrupt
/// trampolines push them (the first field sits at the lowest address).
#[derive(Debug, Clone, Copy, PartialEq, Eq, Structural)]
pub struct Registers {
    pub r15: u64,
    pub r14: u64,
    pub r13: u64,
    pub r12: u64,
    pub r11: u64,
    pub r10: u64,
    pub r9: u64,
    pub r8: u64,
    pub rsi: u64,
    pub rdi: u64,
    pub rbp: u64,
    pub rdx: u64,
    pub rcx: u64,
    pub rbx: u64,
    pub rax: u64,
}

impl Registers {
    pub open spec fn is_zero(&self) -> bool {
        self.r15 == 0 && self.r14 == 0 && self.r13 == 0 && self.r12 == 0 && self.r11 == 0
            && self.r10 == 0 && self.r9 == 0 && self.r8 == 0 && self.rsi == 0 && self.rdi == 0
            && self.rbp == 0 && self.rdx == 0 && self.rcx == 0 && self.rbx == 0 && self.rax == 0
    }
}

impl Default for Registers {
    fn default() -> (r: Self)
        ensures
            r.is_zero(),
    {
        Registers {
            r15: 0,
            r14: 0,
            r13: 0,
            r12: 0,
            r11: 0,
            r10: 0,
            r9: 0,
            r8: 0,
            rsi: 0,
            rdi: 0,
            rbp: 0,
            rdx: 0,
            rcx: 0,
            rbx: 0,
            rax: 0,
        }
    }
}

/// What the CPU pushes on an interrupt: the interrupted instruction and
/// stack, code and stack segments, and flags.
#[derive(Debug, Clone, Copy, PartialEq, Eq, Structural)]
pub struct StackFrame {
    pub instruction_pointer: u64,
    pub code_segment: u64,
    pub cpu_flags: u64,
    pub stack_pointer: u64,
    pub stack_segment: u64,
}

/// Everything needed to resume a suspended task: the two data-segment
/// selectors, the general-purpose registers and the hardware frame, laid out
/// as the trampolines build it on the interrupt stack.
#[derive(Debug, Clone, Copy, PartialEq, Eq, Structural)]
pub struct TaskFrame {
    pub es: u64,
    pub ds: u64,
    pub regs: Registers,
    pub frame: StackFrame,
}

/// Requested privilege level held by the low two bits of a selector.
pub open spec fn rpl(selector: u64) -> u64 {
    selector % 4
}

impl TaskFrame {
    pub open spec fn is_user_spec(&self) -> bool {
        rpl(self.frame.code_segment) == 3
    }

    /// Whether the frame was captured at user privilege.
    pub fn is_user(&self) -> (r: bool)
        ensures
            r == self.is_user_spec(),
    {
        self.frame.code_segment % 4 == 3
    }

    pub open spec fn new_entry_spec(
        entry: u64,
        stack_top: u64,
        code_segment: u64,
        data_segment: u64,
        stack_segment: u64,
    ) -> TaskFrame {
        TaskFrame {
            es: data_segment,
            ds: data_segment,
            regs: Registers {
                r15: 0,
                r14: 0,
                r13: 0,
                r12: 0,
                r11: 0,
                r10: 0,
                r9: 0,
                r8: 0,
                rsi: 0,
                rdi: 0,
                rbp: 0,
                rdx: 0,
                rcx: 0,
                rbx: 0,
                rax: 0,
            },
            frame: StackFrame {
                instruction_pointer: entry,
                code_segment,
                cpu_flags: RFLAGS_INTERRUPTS_ENABLED,
                stack_pointer: stack_top,
                stack_segment,
            },
        }
    }

    /// A frame that starts execution at `entry` on the stack `stack_top`,
    /// with interrupts enabled and zeroed registers, in the given code and
    /// data segments.
    pub fn new_entry(entry: u64, stack_top: u64, code_segment: u64, data_segment: u64, stack_segment: u64) -> (r: Self)
        ensures
            r == Self::new_entry_spec(entry, stack_top, code_segment, data_segment, stack_segment),
    {
        TaskFrame {
            es: data_segment,
            ds: data_segment,
            regs: Registers::default(),
            frame: StackFrame {
                instruction_pointer: entry,
                code_segment,
                cpu_flags: RFLAGS_INTERRUPTS_ENABLED,
                stack_pointer: stack_top,
                stack_segment,
            },
        }
    }
}

} // verus!
