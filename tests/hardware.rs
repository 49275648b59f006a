use litchi::executor::READY_CAPACITY;
use litchi::heap::{init, initialized, KernelHeap, HEAP_BASE, HEAP_PAGES, HEAP_SIZE};
use litchi::interrupt::{
    irq_to_interrupt, io_apic_vector, InterruptSourceOverride, IoApicInfo, IoApics, IrqRoute,
};
use litchi::memory::{align_up, Mapping, PRESENT, USER_ACCESSIBLE, USER_DATA_FLAGS, WRITABLE};
use litchi::{
    enable_irqs, init_io_apic, ExitCode, IstIndex, KernelTaskExecutor, PageTableWrapper,
    UserInterrupt,
};

fn space_with(mappings: &[Mapping]) -> PageTableWrapper {
    let kernel = PageTableWrapper::kernel(1, &Vec::new());
    let mut pt = PageTableWrapper::new_user(2, &kernel);
    for m in mappings {
        pt.map_to(m.page, m.frame, m.flags);
    }
    pt
}

#[test]
fn user_access_check_covers_every_page() {
    let pt = space_with(&[
        Mapping { page: 0x100, frame: 5, flags: PRESENT | USER_ACCESSIBLE },
        Mapping { page: 0x101, frame: 6, flags: USER_DATA_FLAGS },
        Mapping { page: 0x103, frame: 7, flags: PRESENT | WRITABLE },
    ]);
    assert!(pt.check_user_accessible(0x100_000, 2 * 4096));
    assert!(pt.check_user_accessible(0x100_ffc, 8));
    assert!(!pt.check_user_accessible(0x101_ffc, 8));
    assert!(!pt.check_user_accessible(0x103_000, 1));
    assert!(pt.check_user_accessible(0x999_000, 0));
    assert!(!pt.check_user_accessible(u64::MAX, 2));
}

#[test]
fn allocate_and_map_records_frames() {
    let mut pt = space_with(&[]);
    assert_eq!(pt.allocate_and_map_to(0x200, USER_DATA_FLAGS, None), None);
    assert!(!pt.is_page_mapped(0x200));
    assert_eq!(pt.allocate_and_map_to(0x200, USER_DATA_FLAGS, Some(9)), Some(9));
    assert!(pt.is_page_user_accessible(0x200));
    assert_eq!(pt.into_allocated(), vec![2, 9]);
}

#[test]
fn kernel_space_frames_are_permanent() {
    let mut kernel = PageTableWrapper::kernel(1, &vec![Mapping { page: 0x10, frame: 0x10, flags: PRESENT }]);
    assert_eq!(kernel.allocate_and_map_to(0x11, PRESENT, Some(3)), Some(3));
    assert!(kernel.is_page_mapped(0x10));
    assert!(!kernel.is_user());
    assert!(kernel.into_allocated().is_empty());
}

#[test]
fn align_up_rounds_to_pages() {
    assert_eq!(align_up(0), Some(0));
    assert_eq!(align_up(1), Some(4096));
    assert_eq!(align_up(4096), Some(4096));
    assert_eq!(align_up(8193), Some(12288));
    assert_eq!(align_up(u64::MAX), None);
}

#[test]
fn vectors_and_codes() {
    assert_eq!(UserInterrupt::ApicTimer.as_index(), 32);
    assert_eq!(UserInterrupt::ApicError.as_index(), 51);
    assert_eq!(UserInterrupt::ApicSpurious.as_index(), 63);
    assert_eq!(UserInterrupt::Syscall.as_index(), 114);
    assert_eq!(UserInterrupt::SerialIn.as_index(), 132);
    assert_eq!(UserInterrupt::SerialIn.irq_number(), 4);
    assert_eq!(ExitCode::Success.code(), 0x10);
    assert_eq!(ExitCode::Failed.code(), 0x11);
    assert_eq!(IstIndex::DoubleFault.as_u16(), 0);
    assert_eq!(IstIndex::UserInterrupt.as_u16(), 1);
}

#[test]
fn serial_line_routes_through_override() {
    let apics = vec![
        IoApicInfo { address: 0xfec0_0000, global_system_interrupt_base: 24 },
        IoApicInfo { address: 0xfec0_0000, global_system_interrupt_base: 0 },
    ];
    let overrides = vec![
        InterruptSourceOverride { isa_source: 0, global_system_interrupt: 2 },
        InterruptSourceOverride { isa_source: 4, global_system_interrupt: 4 },
    ];
    assert_eq!(irq_to_interrupt(&apics, &overrides, 0), Some((1, 2)));
    assert_eq!(irq_to_interrupt(&apics, &overrides, 30), Some((0, 30)));
    let (io_apics, route) = init_io_apic(apics, overrides);
    assert_eq!(route, Some(IrqRoute { io_apic: 1, global_system_interrupt: 4, vector: 132 }));
    assert_eq!(Some(enable_irqs(&io_apics)), route);
}

#[test]
fn serial_line_elsewhere_is_refused() {
    let io_apics = IoApics {
        io_apics: vec![IoApicInfo { address: 0xfec0_0000, global_system_interrupt_base: 0 }],
        overrides: vec![InterruptSourceOverride { isa_source: 4, global_system_interrupt: 9 }],
    };
    assert_eq!(io_apics.enable_irq(4).map(|r| r.vector), Some(137));
    let none = IoApics { io_apics: Vec::new(), overrides: Vec::new() };
    assert_eq!(none.enable_irq(4), None);
    assert_eq!(io_apic_vector(200), None);
}

#[test]
fn executor_queue_is_bounded() {
    let mut executor = KernelTaskExecutor::new();
    assert!(executor.is_idle());
    for k in 0..READY_CAPACITY {
        assert_eq!(executor.spawn(), Some(k as u64));
    }
    assert_eq!(executor.spawn(), None);
    assert!(!executor.wake(0));
    assert_eq!(executor.next_to_poll(), Some(0));
    executor.finish_poll(0, true);
    assert!(executor.wake(0));
    // task 0 finished: its late wake is skipped
    for k in 1..READY_CAPACITY {
        assert_eq!(executor.next_to_poll(), Some(k as u64));
        executor.finish_poll(k as u64, true);
    }
    assert_eq!(executor.next_to_poll(), None);
    assert!(executor.is_idle());
}

#[test]
fn kernel_heap_is_mapped_writable() {
    let mut kernel = PageTableWrapper::kernel(1, &Vec::new());
    let mut heap = KernelHeap::new();
    assert!(!initialized(&heap));
    let frames: Vec<u64> = (0..HEAP_PAGES as u64).map(|k| 0x1000 + k).collect();
    init(&mut kernel, &frames, &mut heap);
    assert!(initialized(&heap));
    assert_eq!(heap.base(), HEAP_BASE);
    assert_eq!(heap.size(), HEAP_SIZE);
    assert!(kernel.is_page_mapped(HEAP_BASE / 4096));
    assert!(kernel.is_page_mapped(HEAP_BASE / 4096 + HEAP_PAGES as u64 - 1));
    assert!(!kernel.is_page_mapped(HEAP_BASE / 4096 + HEAP_PAGES as u64));
    assert!(!kernel.is_page_user_accessible(HEAP_BASE / 4096));
    assert!(kernel.into_allocated().is_empty());
}

#[test]
fn non_canonical_pages_are_never_accessible() {
    let pt = space_with(&[Mapping { page: 0x7_ffff_ffff, frame: 4, flags: USER_DATA_FLAGS }]);
    assert!(pt.check_user_accessible(0x7fff_ffff_f000, 4096));
    assert!(!pt.check_user_accessible(0x7fff_ffff_f000, 4097));
    assert!(!pt.check_user_accessible(0x8000_0000_0000, 1));
}
