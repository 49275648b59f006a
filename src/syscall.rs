use vstd::prelude::*;
use core::marker::PhantomData;

use crate::resource::{ResourceError, ResourceHandle, ResourceResult};

verus! {

/// Software interrupt vector a user task raises to enter the kernel.
pub const SYSCALL_INTERRUPT: u8 = 114;

/// Virtual address of the request buffer in every user address space.
pub const SYSCALL_IN_ADDR: u64 = 0x1333_0000_0000;

/// Virtual address of the response buffer in every user address space.
pub const SYSCALL_OUT_ADDR: u64 = 0x1334_0000_0000;

/// Number of 4 KiB pages of each syscall buffer.
pub const SYSCALL_BUFFER_PAGES: u64 = 10;

/// Size in bytes of each syscall buffer.
pub const SYSCALL_BUFFER_BYTES: usize = 40960;

/// Number of bytes a request or a response occupies at the start of a buffer.
pub const MESSAGE_BYTES: usize = 32;

/// A range of bytes in the calling task's address space, described by its
/// start address and its length. The kernel validates it before any access.
#[derive(Debug, Clone, Copy, PartialEq, Eq, Structural)]
pub struct UserSlice {
    pub addr: u64,
    pub len: u64,
}

/// A request from a user task.
#[derive(Debug, Clone, Copy, PartialEq, Eq, Structural)]
pub enum Syscall {
    Print { str: UserSlice },
    ExtendHeap { top: u64 },
    GetTaskId,
    Yield,
    Sleep { slice: u64 },
    Open { path: UserSlice },
    Read { handle: ResourceHandle, buf: UserSlice },
    Halt,
    Exit,
}

/// The kernel's answer to a request.
#[derive(Debug, Clone, Copy)]
pub enum SyscallResponse {
    Success,
    GetTaskId { task_id: u64 },
    Open { handle: ResourceResult<ResourceHandle> },
    Read { len: ResourceResult<u64> },
}

// ---------------------------------------------------------------------------
// Word-level layout: a message is four little-endian 64-bit words, the first
// of which is the variant tag.

pub open spec fn error_code(e: ResourceError) -> u64 {
    match e {
        ResourceError::NotSupported => 1,
        ResourceError::NotExists => 2,
        ResourceError::Closed => 3,
    }
}

pub open spec fn error_of_code(c: u64) -> Option<ResourceError> {
    if c == 1 {
        Some(ResourceError::NotSupported)
    } else if c == 2 {
        Some(ResourceError::NotExists)
    } else if c == 3 {
        Some(ResourceError::Closed)
    } else {
        None
    }
}

/// The words that encode a request.
pub open spec fn syscall_words(s: Syscall) -> Seq<u64> {
    match s {
        Syscall::Print { str } => seq![0, str.addr, str.len, 0],
        Syscall::ExtendHeap { top } => seq![1, top, 0, 0],
        Syscall::GetTaskId => seq![2, 0, 0, 0],
        Syscall::Yield => seq![3, 0, 0, 0],
        Syscall::Sleep { slice } => seq![4, slice, 0, 0],
        Syscall::Open { path } => seq![5, path.addr, path.len, 0],
        Syscall::Read { handle, buf } => seq![6, handle.0, buf.addr, buf.len],
        Syscall::Halt => seq![7, 0, 0, 0],
        Syscall::Exit => seq![8, 0, 0, 0],
    }
}

/// The request that four words encode, if they encode one.
pub open spec fn syscall_of_words(w: Seq<u64>) -> Option<Syscall> {
    let (t, a, b, c) = (w[0], w[1], w[2], w[3]);
    if t == 0 {
        Some(Syscall::Print { str: UserSlice { addr: a, len: b } })
    } else if t == 1 {
        Some(Syscall::ExtendHeap { top: a })
    } else if t == 2 {
        Some(Syscall::GetTaskId)
    } else if t == 3 {
        Some(Syscall::Yield)
    } else if t == 4 {
        Some(Syscall::Sleep { slice: a })
    } else if t == 5 {
        Some(Syscall::Open { path: UserSlice { addr: a, len: b } })
    } else if t == 6 {
        Some(Syscall::Read { handle: ResourceHandle(a), buf: UserSlice { addr: b, len: c } })
    } else if t == 7 {
        Some(Syscall::Halt)
    } else if t == 8 {
        Some(Syscall::Exit)
    } else {
        None
    }
}

/// The words that encode a response.
pub open spec fn response_words(r: SyscallResponse) -> Seq<u64> {
    match r {
        SyscallResponse::Success => seq![0, 0, 0, 0],
        SyscallResponse::GetTaskId { task_id } => seq![1, task_id, 0, 0],
        SyscallResponse::Open { handle } => match handle {
            Ok(h) => seq![2, 0, h.0, 0],
            Err(e) => seq![2, error_code(e), 0, 0],
        },
        SyscallResponse::Read { len } => match len {
            Ok(n) => seq![3, 0, n, 0],
            Err(e) => seq![3, error_code(e), 0, 0],
        },
    }
}

/// The response that four words encode, if they encode one.
pub open spec fn response_of_words(w: Seq<u64>) -> Option<SyscallResponse> {
    let (t, a, b) = (w[0], w[1], w[2]);
    if t == 0 {
        Some(SyscallResponse::Success)
    } else if t == 1 {
        Some(SyscallResponse::GetTaskId { task_id: a })
    } else if t == 2 {
        if a == 0 {
            Some(SyscallResponse::Open { handle: Ok(ResourceHandle(b)) })
        } else {
            match error_of_code(a) {
                Some(e) => Some(SyscallResponse::Open { handle: Err(e) }),
                None => None,
            }
        }
    } else if t == 3 {
        if a == 0 {
            Some(SyscallResponse::Read { len: Ok(b) })
        } else {
            match error_of_code(a) {
                Some(e) => Some(SyscallResponse::Read { len: Err(e) }),
                None => None,
            }
        }
    } else {
        None
    }
}

// ---------------------------------------------------------------------------
// Byte-level layout.

/// The eight little-endian bytes of `x`.
pub open spec fn le_bytes(x: u64) -> Seq<u8> {
    seq![
        (x & 0xff) as u8,
        ((x >> 8u64) & 0xff) as u8,
        ((x >> 16u64) & 0xff) as u8,
        ((x >> 24u64) & 0xff) as u8,
        ((x >> 32u64) & 0xff) as u8,
        ((x >> 40u64) & 0xff) as u8,
        ((x >> 48u64) & 0xff) as u8,
        ((x >> 56u64) & 0xff) as u8,
    ]
}

/// The little-endian word held by `b[i..i + 8]`.
pub open spec fn le_word(b: Seq<u8>, i: int) -> u64 {
    (b[i] as u64) | ((b[i + 1] as u64) << 8u64) | ((b[i + 2] as u64) << 16u64) | ((b[i + 3] as u64)
        << 24u64) | ((b[i + 4] as u64) << 32u64) | ((b[i + 5] as u64) << 40u64) | ((b[i + 6] as u64)
        << 48u64) | ((b[i + 7] as u64) << 56u64)
}

/// The bytes of a message: its four words, each little-endian.
pub open spec fn message_bytes(w: Seq<u64>) -> Seq<u8> {
    le_bytes(w[0]) + le_bytes(w[1]) + le_bytes(w[2]) + le_bytes(w[3])
}

/// The four words of the message at the start of `b`.
pub open spec fn message_words(b: Seq<u8>) -> Seq<u64> {
    seq![le_word(b, 0), le_word(b, 8), le_word(b, 16), le_word(b, 24)]
}

/// The bytes of a buffer after a message with the given words was written
/// to its start.
pub open spec fn with_message(buffer: Seq<u8>, w: Seq<u64>) -> Seq<u8> {
    message_bytes(w) + buffer.skip(MESSAGE_BYTES as int)
}

proof fn lemma_le_word_of_bytes(x: u64)
    ensures
        le_word(le_bytes(x), 0) == x,
{
    let b = le_bytes(x);
    assert(((x & 0xff) as u8 as u64) | ((((x >> 8u64) & 0xff) as u8 as u64) << 8u64) | ((((x
        >> 16u64) & 0xff) as u8 as u64) << 16u64) | ((((x >> 24u64) & 0xff) as u8 as u64) << 24u64)
        | ((((x >> 32u64) & 0xff) as u8 as u64) << 32u64) | ((((x >> 40u64) & 0xff) as u8 as u64)
        << 40u64) | ((((x >> 48u64) & 0xff) as u8 as u64) << 48u64) | ((((x >> 56u64) & 0xff) as u8
        as u64) << 56u64) == x) by (bit_vector);
}

proof fn lemma_le_word_at(b: Seq<u8>, i: int, x: u64)
    requires
        0 <= i,
        i + 8 <= b.len(),
        b.subrange(i, i + 8) == le_bytes(x),
    ensures
        le_word(b, i) == x,
{
    lemma_le_word_of_bytes(x);
    let s = b.subrange(i, i + 8);
    assert(s[0] == b[i] && s[1] == b[i + 1] && s[2] == b[i + 2] && s[3] == b[i + 3]);
    assert(s[4] == b[i + 4] && s[5] == b[i + 5] && s[6] == b[i + 6] && s[7] == b[i + 7]);
}

/// Reading back the message just written to a buffer gives its words.
proof fn lemma_message_round_trip(buffer: Seq<u8>, w: Seq<u64>)
    requires
        w.len() == 4,
        buffer.len() >= MESSAGE_BYTES,
    ensures
        message_words(with_message(buffer, w)) == w,
{
    let b = with_message(buffer, w);
    assert(b.subrange(0, 8) =~= le_bytes(w[0]));
    assert(b.subrange(8, 16) =~= le_bytes(w[1]));
    assert(b.subrange(16, 24) =~= le_bytes(w[2]));
    assert(b.subrange(24, 32) =~= le_bytes(w[3]));
    lemma_le_word_at(b, 0, w[0]);
    lemma_le_word_at(b, 8, w[1]);
    lemma_le_word_at(b, 16, w[2]);
    lemma_le_word_at(b, 24, w[3]);
    assert(message_words(b) =~= w);
}

/// Writing a request to a syscall buffer and reading it back yields the same
/// request, whatever the buffer held before.
pub proof fn lemma_syscall_round_trip(buffer: Seq<u8>, s: Syscall)
    requires
        buffer.len() == SYSCALL_BUFFER_BYTES,
    ensures
        syscall_of_words(message_words(with_message(buffer, syscall_words(s)))) == Some(s),
{
    lemma_message_round_trip(buffer, syscall_words(s));
}

/// Writing a response to a syscall buffer and reading it back yields the same
/// response, whatever the buffer held before.
pub proof fn lemma_response_round_trip(buffer: Seq<u8>, r: SyscallResponse)
    requires
        buffer.len() == SYSCALL_BUFFER_BYTES,
    ensures
        response_of_words(message_words(with_message(buffer, response_words(r)))) == Some(r),
{
    lemma_message_round_trip(buffer, response_words(r));
}

// ---------------------------------------------------------------------------
// Executable encoding and decoding.

fn put_word(bytes: &mut Vec<u8>, i: usize, x: u64)
    requires
        i + 8 <= old(bytes).len(),
    ensures
        final(bytes)@.len() == old(bytes)@.len(),
        final(bytes)@.subrange(i as int, i + 8) == le_bytes(x),
        forall|j: int|
            0 <= j < old(bytes)@.len() && !(i <= j < i + 8) ==> final(bytes)@[j] == old(bytes)@[j],
{
    bytes.set(i, (x & 0xff) as u8);
    bytes.set(i + 1, ((x >> 8u64) & 0xff) as u8);
    bytes.set(i + 2, ((x >> 16u64) & 0xff) as u8);
    bytes.set(i + 3, ((x >> 24u64) & 0xff) as u8);
    bytes.set(i + 4, ((x >> 32u64) & 0xff) as u8);
    bytes.set(i + 5, ((x >> 40u64) & 0xff) as u8);
    bytes.set(i + 6, ((x >> 48u64) & 0xff) as u8);
    bytes.set(i + 7, ((x >> 56u64) & 0xff) as u8);
    assert(bytes@.subrange(i as int, i + 8) =~= le_bytes(x));
}

fn get_word(bytes: &Vec<u8>, i: usize) -> (r: u64)
    requires
        i + 8 <= bytes.len(),
    ensures
        r == le_word(bytes@, i as int),
{
    (bytes[i] as u64) | ((bytes[i + 1] as u64) << 8u64) | ((bytes[i + 2] as u64) << 16u64) | ((
    bytes[i + 3] as u64) << 24u64) | ((bytes[i + 4] as u64) << 32u64) | ((bytes[i + 5] as u64)
        << 40u64) | ((bytes[i + 6] as u64) << 48u64) | ((bytes[i + 7] as u64) << 56u64)
}

fn put_message(bytes: &mut Vec<u8>, w0: u64, w1: u64, w2: u64, w3: u64)
    requires
        old(bytes).len() >= MESSAGE_BYTES,
    ensures
        final(bytes)@ == with_message(old(bytes)@, seq![w0, w1, w2, w3]),
{
    let ghost start = bytes@;
    put_word(bytes, 0, w0);
    let ghost b0 = bytes@;
    put_word(bytes, 8, w1);
    let ghost b1 = bytes@;
    put_word(bytes, 16, w2);
    let ghost b2 = bytes@;
    put_word(bytes, 24, w3);
    let ghost w = seq![w0, w1, w2, w3];
    assert forall|j: int| 0 <= j < 8 implies bytes@[j] == le_bytes(w0)[j] by {
        assert(b0.subrange(0, 8)[j] == b0[j]);
    }
    assert forall|j: int| 8 <= j < 16 implies bytes@[j] == le_bytes(w1)[j - 8] by {
        assert(b1.subrange(8, 16)[j - 8] == b1[j]);
    }
    assert forall|j: int| 16 <= j < 24 implies bytes@[j] == le_bytes(w2)[j - 16] by {
        assert(b2.subrange(16, 24)[j - 16] == b2[j]);
    }
    assert forall|j: int| 24 <= j < 32 implies bytes@[j] == le_bytes(w3)[j - 24] by {
        assert(bytes@.subrange(24, 32)[j - 24] == bytes@[j]);
    }
    assert(bytes@ =~= with_message(start, w));
}

fn error_code_of(e: ResourceError) -> (r: u64)
    ensures
        r == error_code(e),
{
    match e {
        ResourceError::NotSupported => 1,
        ResourceError::NotExists => 2,
        ResourceError::Closed => 3,
    }
}

fn error_from_code(c: u64) -> (r: Option<ResourceError>)
    ensures
        r == error_of_code(c),
{
    if c == 1 {
        Some(ResourceError::NotSupported)
    } else if c == 2 {
        Some(ResourceError::NotExists)
    } else if c == 3 {
        Some(ResourceError::Closed)
    } else {
        None
    }
}

/// Marker for the request buffer.
pub struct In;

/// Marker for the response buffer.
pub struct Out;

/// A syscall buffer page shared between the kernel and a user task. `T` is
/// `In` for requests and `Out` for responses.
pub struct SyscallBuffer<T> {
    bytes: Vec<u8>,
    _direction: PhantomData<T>,
}

impl<T> View for SyscallBuffer<T> {
    type V = Seq<u8>;

    closed spec fn view(&self) -> Seq<u8> {
        self.bytes@
    }
}

impl<T> SyscallBuffer<T> {
    /// A zero-filled buffer.
    pub fn new() -> (r: Self)
        ensures
            r@ == Seq::new(SYSCALL_BUFFER_BYTES as nat, |i: int| 0u8),
    {
        let mut bytes: Vec<u8> = Vec::new();
        while bytes.len() < SYSCALL_BUFFER_BYTES
            invariant
                bytes.len() <= SYSCALL_BUFFER_BYTES,
                forall|i: int| 0 <= i < bytes.len() ==> bytes@[i] == 0u8,
            decreases SYSCALL_BUFFER_BYTES - bytes.len(),
        {
            bytes.push(0u8);
        }
        let r = SyscallBuffer { bytes, _direction: PhantomData };
        assert(r@ =~= Seq::new(SYSCALL_BUFFER_BYTES as nat, |i: int| 0u8));
        r
    }

    /// Takes over the bytes of a buffer page; `None` unless there are exactly
    /// as many as a buffer holds.
    pub fn from_bytes(bytes: Vec<u8>) -> (r: Option<Self>)
        ensures
            bytes.len() == SYSCALL_BUFFER_BYTES <==> r.is_some(),
            r matches Some(b) ==> b@ == bytes@,
    {
        if bytes.len() == SYSCALL_BUFFER_BYTES {
            Some(SyscallBuffer { bytes, _direction: PhantomData })
        } else {
            None
        }
    }

    /// The bytes of the buffer page.
    pub fn as_bytes(&self) -> (r: &[u8])
        ensures
            r@ == self@,
    {
        self.bytes.as_slice()
    }
}

impl SyscallBuffer<In> {
    /// Writes a request to the start of the buffer (the user side, before it
    /// raises the syscall interrupt).
    pub fn call(&mut self, syscall: Syscall)
        requires
            old(self)@.len() == SYSCALL_BUFFER_BYTES,
        ensures
            final(self)@ == with_message(old(self)@, syscall_words(syscall)),
    {
        match syscall {
            Syscall::Print { str } => put_message(&mut self.bytes, 0, str.addr, str.len, 0),
            Syscall::ExtendHeap { top } => put_message(&mut self.bytes, 1, top, 0, 0),
            Syscall::GetTaskId => put_message(&mut self.bytes, 2, 0, 0, 0),
            Syscall::Yield => put_message(&mut self.bytes, 3, 0, 0, 0),
            Syscall::Sleep { slice } => put_message(&mut self.bytes, 4, slice, 0, 0),
            Syscall::Open { path } => put_message(&mut self.bytes, 5, path.addr, path.len, 0),
            Syscall::Read { handle, buf } => put_message(
                &mut self.bytes,
                6,
                handle.0,
                buf.addr,
                buf.len,
            ),
            Syscall::Halt => put_message(&mut self.bytes, 7, 0, 0, 0),
            Syscall::Exit => put_message(&mut self.bytes, 8, 0, 0, 0),
        }
    }

    /// Reads the request at the start of the buffer (the kernel side);
    /// `None` when the bytes encode no request.
    pub fn get_syscall(&self) -> (r: Option<Syscall>)
        requires
            self@.len() == SYSCALL_BUFFER_BYTES,
        ensures
            r == syscall_of_words(message_words(self@)),
    {
        let t = get_word(&self.bytes, 0);
        let a = get_word(&self.bytes, 8);
        let b = get_word(&self.bytes, 16);
        let c = get_word(&self.bytes, 24);
        if t == 0 {
            Some(Syscall::Print { str: UserSlice { addr: a, len: b } })
        } else if t == 1 {
            Some(Syscall::ExtendHeap { top: a })
        } else if t == 2 {
            Some(Syscall::GetTaskId)
        } else if t == 3 {
            Some(Syscall::Yield)
        } else if t == 4 {
            Some(Syscall::Sleep { slice: a })
        } else if t == 5 {
            Some(Syscall::Open { path: UserSlice { addr: a, len: b } })
        } else if t == 6 {
            Some(Syscall::Read { handle: ResourceHandle(a), buf: UserSlice { addr: b, len: c } })
        } else if t == 7 {
            Some(Syscall::Halt)
        } else if t == 8 {
            Some(Syscall::Exit)
        } else {
            None
        }
    }
}

impl SyscallBuffer<Out> {
    /// Writes a response to the start of the buffer (the kernel side).
    pub fn response(&mut self, response: SyscallResponse)
        requires
            old(self)@.len() == SYSCALL_BUFFER_BYTES,
        ensures
            final(self)@ == with_message(old(self)@, response_words(response)),
    {
        match response {
            SyscallResponse::Success => put_message(&mut self.bytes, 0, 0, 0, 0),
            SyscallResponse::GetTaskId { task_id } => put_message(&mut self.bytes, 1, task_id, 0, 0),
            SyscallResponse::Open { handle } => match handle {
                Ok(h) => put_message(&mut self.bytes, 2, 0, h.0, 0),
                Err(e) => {
                    let c = error_code_of(e);
                    put_message(&mut self.bytes, 2, c, 0, 0)
                },
            },
            SyscallResponse::Read { len } => match len {
                Ok(n) => put_message(&mut self.bytes, 3, 0, n, 0),
                Err(e) => {
                    let c = error_code_of(e);
                    put_message(&mut self.bytes, 3, c, 0, 0)
                },
            },
        }
    }

    /// Reads the response at the start of the buffer (the user side);
    /// `None` when the bytes encode no response.
    pub fn get_response(&self) -> (r: Option<SyscallResponse>)
        requires
            self@.len() == SYSCALL_BUFFER_BYTES,
        ensures
            r == response_of_words(message_words(self@)),
    {
        let t = get_word(&self.bytes, 0);
        let a = get_word(&self.bytes, 8);
        let b = get_word(&self.bytes, 16);
        if t == 0 {
            Some(SyscallResponse::Success)
        } else if t == 1 {
            Some(SyscallResponse::GetTaskId { task_id: a })
        } else if t == 2 {
            if a == 0 {
                Some(SyscallResponse::Open { handle: Ok(ResourceHandle(b)) })
            } else {
                match error_from_code(a) {
                    Some(e) => Some(SyscallResponse::Open { handle: Err(e) }),
                    None => None,
                }
            }
        } else if t == 3 {
            if a == 0 {
                Some(SyscallResponse::Read { len: Ok(b) })
            } else {
                match error_from_code(a) {
                    Some(e) => Some(SyscallResponse::Read { len: Err(e) }),
                    None => None,
                }
            }
        } else {
            None
        }
    }
}

} // verus!
