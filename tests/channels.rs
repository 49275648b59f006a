use litchi::{
    apic_timer_inner, open, read_line, serial_in_inner, BoxedResource, KernelTaskExecutor,
    LineRead, Resource, ResourceError, Sender, SliceTimer,
};

fn push_bytes(serial: &mut Sender<u8>, bytes: &[u8]) {
    for b in bytes {
        serial.send_all(*b);
    }
}

#[test]
fn serial_broadcast_reads_lines() {
    let mut serial: Sender<u8> = Sender::new();
    let term = open(&b"/device/term".to_vec(), &mut serial).unwrap();
    push_bytes(&mut serial, b"hi\n");
    let mut read = LineRead::new(256);
    assert!(term.read(&mut serial, &mut read, 9));
    assert_eq!(read.into_line(), b"hi\n".to_vec());
    push_bytes(&mut serial, &[b'a', 0x7f, b'b', b'\n']);
    let mut read = LineRead::new(256);
    assert!(term.read(&mut serial, &mut read, 9));
    assert_eq!(read.into_line(), b"b\n".to_vec());
}

#[test]
fn term_read_waits_for_more_input() {
    let mut serial: Sender<u8> = Sender::new();
    let mut executor = KernelTaskExecutor::new();
    let term = open(&b"/device/term".to_vec(), &mut serial).unwrap();
    let mut read = LineRead::new(256);
    assert!(!term.read(&mut serial, &mut read, 3));
    // the next byte wakes kernel task 3
    assert!(serial_in_inner(&mut serial, &mut executor, b'x'));
    assert!(!executor.is_idle());
    assert!(!term.read(&mut serial, &mut read, 3));
    serial_in_inner(&mut serial, &mut executor, b'\n');
    assert!(term.read(&mut serial, &mut read, 3));
    assert_eq!(read.into_line(), b"x\n".to_vec());
}

#[test]
fn read_stops_at_max_len() {
    let input = b"abcdef".to_vec();
    let (line, taken) = read_line(&input, 4).unwrap();
    assert_eq!(line, b"abcd".to_vec());
    assert_eq!(taken, 4);
    assert!(read_line(&b"abc".to_vec(), 4).is_none());
    let (line, taken) = read_line(&b"xyz".to_vec(), 0).unwrap();
    assert!(line.is_empty());
    assert_eq!(taken, 0);
}

#[test]
fn backspace_on_empty_line_is_ignored() {
    let (line, taken) = read_line(&vec![0x7f, 0x7f, b'q', b'\n', b'z'], 256).unwrap();
    assert_eq!(line, b"q\n".to_vec());
    assert_eq!(taken, 4);
}

#[test]
fn unknown_path_is_not_supported() {
    let mut serial: Sender<u8> = Sender::new();
    assert!(matches!(open(&b"/device/tty".to_vec(), &mut serial), Err(ResourceError::NotSupported)));
    assert_eq!(serial.subscriptions(), 0);
}

#[test]
fn term_write_is_not_supported() {
    let mut serial: Sender<u8> = Sender::new();
    let term: BoxedResource = open(&b"/device/term".to_vec(), &mut serial).unwrap();
    assert!(matches!(term.write(&b"x".to_vec()), Err(ResourceError::NotSupported)));
}

#[test]
fn send_after_receivers_dropped_is_noop() {
    let mut serial: Sender<u8> = Sender::new();
    let a = serial.subscribe();
    let b = serial.subscribe();
    assert_eq!(serial.poll_next(a.id(), 1), None);
    serial.drop_receiver(a);
    serial.drop_receiver(b);
    let woken = serial.send_all(5);
    assert!(woken.is_empty());
    assert_eq!(serial.subscriptions(), 0);
    assert_eq!(serial.send_one(6), None);
    assert_eq!(serial.subscriptions(), 0);
}

#[test]
fn send_all_reaches_every_receiver() {
    let mut serial: Sender<u8> = Sender::new();
    let a = serial.subscribe();
    let b = serial.subscribe();
    assert_eq!(serial.poll_next(b.id(), 42), None);
    let woken = serial.send_all(7);
    assert_eq!(woken, vec![42]);
    assert_eq!(serial.poll_next(a.id(), 1), Some(7));
    assert_eq!(serial.poll_next(b.id(), 1), Some(7));
    assert_eq!(serial.poll_next(b.id(), 1), None);
}

#[test]
fn send_one_reaches_the_single_receiver() {
    let mut tx: Sender<()> = Sender::new();
    let rx = tx.subscribe();
    assert_eq!(tx.poll_next(rx.id(), 8), None);
    assert_eq!(tx.send_one(()), Some(8));
    assert_eq!(tx.poll_next(rx.id(), 8), Some(()));
}

#[test]
fn slice_count_is_monotonic_and_deadline_fires_once() {
    let mut timer = SliceTimer::new();
    timer.sleep(2, 11);
    timer.sleep(2, 12);
    timer.sleep(3, 13);
    timer.sleep(0, 14);
    assert!(timer.inc_slice().is_empty());
    assert_eq!(timer.slice_count(), 1);
    assert_eq!(timer.inc_slice(), vec![11, 12]);
    assert_eq!(timer.slice_count(), 2);
    assert_eq!(timer.inc_slice(), vec![13]);
    assert!(timer.inc_slice().is_empty());
    assert_eq!(timer.slice_count(), 4);
}

#[test]
fn timer_tick_wakes_sleepers() {
    let mut timer = SliceTimer::new();
    let mut executor = KernelTaskExecutor::new();
    let id = executor.spawn().unwrap();
    assert_eq!(executor.next_to_poll(), Some(id));
    executor.finish_poll(id, false);
    assert!(executor.is_idle());
    timer.sleep(1, id);
    assert!(apic_timer_inner(&mut timer, &mut executor));
    assert_eq!(timer.slice_count(), 1);
    assert_eq!(executor.next_to_poll(), Some(id));
}

#[test]
fn drain_takes_everything_and_registers_waiter() {
    let mut serial: Sender<u8> = Sender::new();
    let rx = serial.subscribe();
    serial.send_all(1);
    serial.send_all(2);
    assert_eq!(serial.drain(rx.id(), 6), vec![1, 2]);
    assert!(serial.drain(rx.id(), 6).is_empty());
    assert_eq!(serial.send_all(3), vec![6]);
    assert!(serial.drain(99, 6).is_empty());
}
