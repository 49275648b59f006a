use litchi::syscall::{SYSCALL_BUFFER_BYTES, SYSCALL_INTERRUPT};
use litchi::{
    In, Out, ResourceError, ResourceHandle, Syscall, SyscallBuffer, SyscallResponse, UserSlice,
};

fn round_trip(s: Syscall) -> Option<Syscall> {
    let mut buffer: SyscallBuffer<In> = SyscallBuffer::new();
    buffer.call(Syscall::Read {
        handle: ResourceHandle(u64::MAX),
        buf: UserSlice { addr: u64::MAX, len: 1 },
    });
    buffer.call(s);
    buffer.get_syscall()
}

#[test]
fn every_request_survives_the_buffer() {
    let text = UserSlice { addr: 0x1234_5678_9abc, len: 99 };
    let all = vec![
        Syscall::Print { str: text },
        Syscall::ExtendHeap { top: 0x1000_0000_3000 },
        Syscall::GetTaskId,
        Syscall::Yield,
        Syscall::Sleep { slice: 5 },
        Syscall::Open { path: text },
        Syscall::Read { handle: ResourceHandle(3), buf: UserSlice { addr: 0xdead_beef, len: 256 } },
        Syscall::Halt,
        Syscall::Exit,
    ];
    for s in all {
        assert_eq!(round_trip(s), Some(s));
    }
}

#[test]
fn every_response_survives_the_buffer() {
    let all = vec![
        SyscallResponse::Success,
        SyscallResponse::GetTaskId { task_id: 1025 },
        SyscallResponse::Open { handle: Ok(ResourceHandle(2)) },
        SyscallResponse::Open { handle: Err(ResourceError::NotSupported) },
        SyscallResponse::Read { len: Ok(3) },
        SyscallResponse::Read { len: Err(ResourceError::NotExists) },
        SyscallResponse::Read { len: Err(ResourceError::Closed) },
    ];
    for r in all {
        let mut buffer: SyscallBuffer<Out> = SyscallBuffer::new();
        buffer.response(SyscallResponse::GetTaskId { task_id: u64::MAX });
        buffer.response(r);
        assert_eq!(format!("{:?}", buffer.get_response()), format!("{:?}", Some(r)));
    }
}

#[test]
fn request_layout_is_little_endian_words() {
    let mut buffer: SyscallBuffer<In> = SyscallBuffer::new();
    buffer.call(Syscall::Sleep { slice: 0x0102 });
    let bytes = buffer.as_bytes();
    assert_eq!(bytes.len(), SYSCALL_BUFFER_BYTES);
    assert_eq!(&bytes[0..8], &[4, 0, 0, 0, 0, 0, 0, 0]);
    assert_eq!(&bytes[8..16], &[2, 1, 0, 0, 0, 0, 0, 0]);
    assert_eq!(SYSCALL_INTERRUPT, 114);
}

#[test]
fn corrupt_buffer_decodes_to_nothing() {
    let mut bytes = vec![0u8; SYSCALL_BUFFER_BYTES];
    bytes[0] = 9;
    let buffer: SyscallBuffer<In> = SyscallBuffer::from_bytes(bytes).unwrap();
    assert_eq!(buffer.get_syscall(), None);
    let mut bytes = vec![0u8; SYSCALL_BUFFER_BYTES];
    bytes[0] = 2;
    bytes[8] = 4;
    let buffer: SyscallBuffer<Out> = SyscallBuffer::from_bytes(bytes).unwrap();
    assert!(buffer.get_response().is_none());
    assert!(SyscallBuffer::<In>::from_bytes(vec![0u8; 10]).is_none());
}
