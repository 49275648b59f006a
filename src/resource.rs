use vstd::prelude::*;

use crate::broadcast::{first_with_id, lemma_first_with_id_unique, Sender, Subscriber};

verus! {

/// Dense, per-task handle naming an open resource.
#[derive(Debug, Clone, Copy, PartialEq, Eq, Structural, Hash, PartialOrd, Ord)]
pub struct ResourceHandle(pub u64);

/// Errors reported by resource operations.
#[derive(Debug, Clone, Copy, PartialEq, Eq, Structural)]
pub enum ResourceError {
    NotSupported,
    NotExists,
    Closed,
}

pub type ResourceResult<T> = Result<T, ResourceError>;

} // verus!

verus! {

/// The terminal device: reads lines from the serial input channel through
/// its own subscription.
#[derive(Debug, Clone, Copy, PartialEq, Eq, Structural)]
pub struct Term {
    /// The subscription to the serial broadcast channel.
    pub receiver: u64,
}

/// A resource a task holds. Every handle to it shares one underlying object,
/// so copies of this value name the same resource.
#[derive(Debug, Clone, Copy, PartialEq, Eq, Structural)]
pub enum BoxedResource {
    Term(Term),
}

/// The bytes of `/device/term`, the one path that names a resource.
pub open spec fn term_path() -> Seq<u8> {
    seq![47u8, 100, 101, 118, 105, 99, 101, 47, 116, 101, 114, 109]
}

fn is_term_path(path: &Vec<u8>) -> (r: bool)
    ensures
        r == (path@ == term_path()),
{
    let expected: Vec<u8> = vec![47u8, 100, 101, 118, 105, 99, 101, 47, 116, 101, 114, 109];
    assert(expected@ =~= term_path());
    if path.len() != expected.len() {
        return false;
    }
    let mut i: usize = 0;
    while i < path.len()
        invariant
            0 <= i <= path@.len(),
            path@.len() == expected@.len(),
            expected@ == term_path(),
            forall|j: int| 0 <= j < i ==> path@[j] == expected@[j],
        decreases path@.len() - i,
    {
        if path[i] != expected[i] {
            assert(path@[i as int] != term_path()[i as int]);
            return false;
        }
        i = i + 1;
    }
    assert(path@ =~= expected@);
    true
}

impl Term {
    /// A terminal with a fresh subscription to the serial input channel.
    pub fn new(serial: &mut Sender<u8>) -> (r: Term)
        requires
            old(serial).wf(),
            old(serial).next_id_spec() < u64::MAX,
        ensures
            final(serial).wf(),
            r.receiver == old(serial).next_id_spec(),
            final(serial).next_id_spec() == old(serial).next_id_spec() + 1,
            final(serial).subs_spec().drop_last() == old(serial).subs_spec(),
            final(serial).subs_spec().last().id == r.receiver,
            final(serial).subs_spec().last().live,
            final(serial).subs_spec().last().buffer@.len() == 0,
    {
        let rx = serial.subscribe();
        Term { receiver: rx.id() }
    }
}

/// Opens the resource at `path`: the terminal for `/device/term`, with a
/// fresh subscription to `serial`; `NotSupported` for any other path.
pub fn open(path: &Vec<u8>, serial: &mut Sender<u8>) -> (r: ResourceResult<BoxedResource>)
    requires
        old(serial).wf(),
        old(serial).next_id_spec() < u64::MAX,
    ensures
        final(serial).wf(),
        path@ == term_path() ==> {
            &&& r == Ok::<BoxedResource, ResourceError>(
                BoxedResource::Term(Term { receiver: old(serial).next_id_spec() }),
            )
            &&& final(serial).next_id_spec() == old(serial).next_id_spec() + 1
            &&& final(serial).subs_spec().drop_last() == old(serial).subs_spec()
            &&& final(serial).subs_spec().last().id == old(serial).next_id_spec()
            &&& final(serial).subs_spec().last().live
            &&& final(serial).subs_spec().last().buffer@.len() == 0
        },
        path@ != term_path() ==> r == Err::<BoxedResource, ResourceError>(
            ResourceError::NotSupported,
        ) && *final(serial) == *old(serial),
{
    if is_term_path(path) {
        Ok(BoxedResource::Term(Term::new(serial)))
    } else {
        Err(ResourceError::NotSupported)
    }
}

/// The byte a terminal sends for the backspace key.
pub const BACKSPACE: u8 = 0x7f;

/// The byte that ends a line.
pub const NEWLINE: u8 = 0x0a;

/// The line read so far after one more byte: a backspace removes the last
/// byte (if any), any other byte is appended.
pub open spec fn line_step(line: Seq<u8>, byte: u8) -> Seq<u8> {
    if byte == BACKSPACE {
        if line.len() > 0 {
            line.drop_last()
        } else {
            line
        }
    } else {
        line.push(byte)
    }
}

/// Whether a read ends after `byte` brought the line to `line`.
pub open spec fn line_ends(line: Seq<u8>, byte: u8, max_len: nat) -> bool {
    byte == NEWLINE || line.len() >= max_len
}

/// The state of a read of at most `max_len` bytes after the bytes `input`
/// arrived: the line so far, and whether the read has ended. Bytes that
/// arrive after the end are not taken.
pub open spec fn line_state(input: Seq<u8>, max_len: nat) -> (Seq<u8>, bool)
    decreases input.len(),
{
    if input.len() == 0 {
        (Seq::empty(), max_len == 0)
    } else {
        let (line, done) = line_state(input.drop_last(), max_len);
        if done {
            (line, done)
        } else {
            let next = line_step(line, input.last());
            (next, line_ends(next, input.last(), max_len))
        }
    }
}

/// A read in progress on the terminal: the line so far, bounded by
/// `max_len` bytes, which ends at a newline or once it is full.
pub struct LineRead {
    line: Vec<u8>,
    max_len: usize,
    done: bool,
    taken: Ghost<Seq<u8>>,
}

impl LineRead {
    pub closed spec fn taken_spec(&self) -> Seq<u8> {
        self.taken@
    }

    pub closed spec fn max_len_spec(&self) -> nat {
        self.max_len as nat
    }

    pub closed spec fn line_spec(&self) -> Seq<u8> {
        self.line@
    }

    pub closed spec fn done_spec(&self) -> bool {
        self.done
    }

    /// The line and the end flag are what the bytes taken so far give.
    pub open spec fn wf(&self) -> bool {
        (self.line_spec(), self.done_spec()) == line_state(self.taken_spec(), self.max_len_spec())
    }

    pub fn new(max_len: usize) -> (r: Self)
        ensures
            r.wf(),
            r.taken_spec().len() == 0,
            r.max_len_spec() == max_len,
    {
        LineRead { line: Vec::new(), max_len, done: max_len == 0, taken: Ghost(Seq::empty()) }
    }

    pub fn is_done(&self) -> (r: bool)
        ensures
            r == self.done_spec(),
    {
        self.done
    }

    /// Takes one more byte of input.
    pub fn feed(&mut self, byte: u8)
        requires
            old(self).wf(),
            !old(self).done_spec(),
        ensures
            final(self).wf(),
            final(self).taken_spec() == old(self).taken_spec().push(byte),
            final(self).max_len_spec() == old(self).max_len_spec(),
    {
        let ghost old_taken = self.taken@;
        if byte == BACKSPACE {
            if self.line.len() > 0 {
                self.line.pop();
            }
        } else {
            self.line.push(byte);
        }
        self.done = byte == NEWLINE || self.line.len() >= self.max_len;
        self.taken = Ghost(old_taken.push(byte));
        assert(self.taken@.drop_last() =~= old_taken);
        assert(self.line@ =~= line_step(old(self).line@, byte));
    }

    /// The line read; the read is over.
    pub fn into_line(self) -> (r: Vec<u8>)
        ensures
            r@ == self.line_spec(),
    {
        self.line
    }
}

/// The line a read of at most `max_len` bytes returns when the bytes
/// `input` arrive, together with how many of them it took; `None` when they
/// do not end it.
pub fn read_line(input: &Vec<u8>, max_len: usize) -> (r: Option<(Vec<u8>, usize)>)
    ensures
        match r {
            Some((line, n)) => {
                &&& n <= input@.len()
                &&& line_state(input@.take(n as int), max_len as nat) == (line@, true)
                &&& forall|k: int| 0 <= k < n ==> !(#[trigger] line_state(input@.take(k), max_len as nat)).1
            },
            None => !line_state(input@, max_len as nat).1,
        },
{
    let mut read = LineRead::new(max_len);
    let mut i: usize = 0;
    while i < input.len() && !read.is_done()
        invariant
            read.wf(),
            read.max_len_spec() == max_len,
            0 <= i <= input@.len(),
            read.taken_spec() == input@.take(i as int),
            forall|k: int| 0 <= k < i ==> !(#[trigger] line_state(input@.take(k), max_len as nat)).1,
        decreases input@.len() - i,
    {
        assert(!line_state(input@.take(i as int), max_len as nat).1);
        read.feed(input[i]);
        i = i + 1;
        assert(read.taken_spec() =~= input@.take(i as int));
    }
    if read.is_done() {
        Some((read.into_line(), i))
    } else {
        assert(input@.take(i as int) =~= input@);
        None
    }
}

/// `r` took the next `k` bytes of `buf` into `before`: not fewer than the
/// line needed, and no more.
pub open spec fn took_line_bytes(before: Seq<u8>, buf: Seq<u8>, k: int, max_len: nat) -> bool {
    &&& 0 <= k <= buf.len()
    &&& forall|j: int| 0 <= j < k ==> !(#[trigger] line_state(before + buf.take(j), max_len)).1
    &&& (k < buf.len() ==> line_state(before + buf.take(k), max_len).1)
}

/// A read on the subscription with id `rx` went from `subs` to `new_subs`
/// and from the bytes `taken` to `new_taken`: the first subscription with
/// that id gave up the next bytes of its buffer, up to the end of the line,
/// and they were appended to what was taken; when the line has not ended
/// (`done` false), its buffer is used up and `waiter` is registered on it.
/// Without such a subscription nothing was taken.
pub open spec fn read_took_buffered(
    subs: Seq<Subscriber<u8>>,
    new_subs: Seq<Subscriber<u8>>,
    rx: u64,
    taken: Seq<u8>,
    new_taken: Seq<u8>,
    max_len: nat,
    done: bool,
    waiter: u64,
) -> bool {
    if exists|i: int| #[trigger] first_with_id(subs, rx, i) {
        exists|i: int, k: int|
            {
                &&& first_with_id(subs, rx, i)
                &&& #[trigger] took_line_bytes(taken, subs[i].buffer@, k, max_len)
                &&& new_taken == taken + subs[i].buffer@.take(k)
                &&& new_subs[i].buffer@ == subs[i].buffer@.skip(k)
                &&& !done ==> k == subs[i].buffer@.len() && new_subs[i].waiter == Some(waiter)
            }
    } else {
        new_taken == taken
    }
}

impl Term {
    /// Continues `read` with the bytes buffered for this terminal in
    /// `serial`, oldest first, taking them until the line ends. Returns
    /// whether it ended; when the buffered bytes ran out first, `waiter` is
    /// registered to be woken by the next byte.
    pub fn read_buffered(&self, serial: &mut Sender<u8>, read: &mut LineRead, waiter: u64) -> (r: bool)
        requires
            old(serial).wf(),
            old(read).wf(),
        ensures
            final(serial).wf(),
            final(read).wf(),
            final(read).max_len_spec() == old(read).max_len_spec(),
            r == final(read).done_spec(),
            final(serial).next_id_spec() == old(serial).next_id_spec(),
            final(serial).subs_spec().len() == old(serial).subs_spec().len(),
            old(read).taken_spec().len() <= final(read).taken_spec().len(),
            final(read).taken_spec().take(old(read).taken_spec().len() as int) == old(
                read,
            ).taken_spec(),
            read_took_buffered(
                old(serial).subs_spec(),
                final(serial).subs_spec(),
                self.receiver,
                old(read).taken_spec(),
                final(read).taken_spec(),
                old(read).max_len_spec(),
                r,
                waiter,
            ),
    {
        let ghost subs0 = serial.subs_spec();
        let ghost rx = self.receiver;
        let ghost found = exists|i: int| #[trigger] first_with_id(subs0, rx, i);
        let ghost idx: int = if found { choose|i: int| #[trigger] first_with_id(subs0, rx, i) } else { 0 };
        let ghost buf: Seq<u8> = if found { subs0[idx].buffer@ } else { Seq::empty() };
        let ghost mut k: int = 0;
        let ghost taken0 = read.taken_spec();
        assert(buf.take(0) =~= Seq::<u8>::empty());
        assert(taken0 + buf.take(0) =~= taken0);
        loop
            invariant
                serial.wf(),
                read.wf(),
                read.max_len_spec() == old(read).max_len_spec(),
                serial.next_id_spec() == old(serial).next_id_spec(),
                serial.subs_spec().len() == subs0.len(),
                subs0 == old(serial).subs_spec(),
                taken0 == old(read).taken_spec(),
                rx == self.receiver,
                found == exists|i: int| #[trigger] first_with_id(subs0, rx, i),
                found ==> first_with_id(subs0, rx, idx),
                found ==> first_with_id(serial.subs_spec(), rx, idx),
                found ==> buf == subs0[idx].buffer@,
                found ==> serial.subs_spec()[idx].buffer@ == buf.skip(k),
                !found ==> !exists|i: int| #[trigger] first_with_id(serial.subs_spec(), rx, i),
                !found ==> k == 0,
                0 <= k <= buf.len(),
                read.taken_spec() == taken0 + buf.take(k),
                forall|j: int| 0 <= j < k ==> !(#[trigger] line_state(taken0 + buf.take(j), read.max_len_spec())).1,
            decreases serial.buffered_spec(),
        {
            if read.is_done() {
                proof {
                    assert((taken0 + buf.take(k)).take(taken0.len() as int) =~= taken0);
                    if found {
                        assert(took_line_bytes(taken0, subs0[idx].buffer@, k, read.max_len_spec()));
                    } else {
                        assert(taken0 + buf.take(k) =~= taken0);
                    }
                }
                return true;
            }
            let ghost before = serial.subs_spec();
            match serial.poll_next(self.receiver, waiter) {
                Some(byte) => {
                    proof {
                        if !found {
                            let i = choose|i: int| #[trigger] first_with_id(before, rx, i);
                            assert(first_with_id(before, rx, i));
                        }
                        let i = choose|i: int| #[trigger] first_with_id(before, rx, i) && {
                            let new_subs = serial.subs_spec();
                            &&& forall|j: int| 0 <= j < before.len() && j != i ==> #[trigger] new_subs[j] == before[j]
                            &&& new_subs[i].id == before[i].id
                            &&& new_subs[i].live == before[i].live
                            &&& if before[i].buffer@.len() > 0 {
                                &&& Some(byte) == Some(before[i].buffer@[0])
                                &&& new_subs[i].buffer@ == before[i].buffer@.drop_first()
                                &&& new_subs[i].waiter == before[i].waiter
                            } else {
                                &&& false
                            }
                        };
                        lemma_first_with_id_unique(before, rx, i, idx);
                        assert(buf.skip(k).len() > 0);
                        assert(byte == buf[k]);
                        assert(!line_state(taken0 + buf.take(k), read.max_len_spec()).1);
                    }
                    read.feed(byte);
                    proof {
                        assert(taken0 + buf.take(k + 1) =~= (taken0 + buf.take(k)).push(byte));
                        assert(buf.skip(k).drop_first() =~= buf.skip(k + 1));
                        let new_subs = serial.subs_spec();
                        assert forall|j: int| 0 <= j < idx implies (#[trigger] new_subs[j]).id != rx by {
                            assert(before[j].id != rx);
                        }
                        k = k + 1;
                    }
                },
                None => {
                    proof {
                        assert((taken0 + buf.take(k)).take(taken0.len() as int) =~= taken0);
                        if found {
                            assert(first_with_id(before, rx, idx));
                            let i = choose|i: int| #[trigger] first_with_id(before, rx, i) && {
                                let new_subs = serial.subs_spec();
                                &&& if before[i].buffer@.len() > 0 {
                                    false
                                } else {
                                    &&& new_subs[i].buffer@.len() == 0
                                    &&& new_subs[i].waiter == Some(waiter)
                                }
                            };
                            lemma_first_with_id_unique(before, rx, i, idx);
                            assert(buf.skip(k).len() == 0);
                            assert(k == buf.len());
                            assert(serial.subs_spec()[idx].buffer@ =~= buf.skip(k));
                            assert(serial.subs_spec()[idx].waiter == Some(waiter));
                            assert(took_line_bytes(taken0, subs0[idx].buffer@, k, read.max_len_spec()));
                        } else {
                            assert(taken0 + buf.take(k) =~= taken0);
                        }
                    }
                    return false;
                },
            }
        }
    }
}

/// A capability a task reaches through a handle. A read is a line read
/// (see `LineRead`) fed from the object's input channel; it returns whether
/// the line ended, and otherwise registers `waiter` to be woken when more
/// input arrives.
pub trait Resource {
    /// The id of the subscription the object reads its input from.
    spec fn receiver_spec(&self) -> u64;

    fn read(&self, serial: &mut Sender<u8>, read: &mut LineRead, waiter: u64) -> (r: bool)
        requires
            old(serial).wf(),
            old(read).wf(),
        ensures
            final(serial).wf(),
            final(read).wf(),
            final(read).max_len_spec() == old(read).max_len_spec(),
            r == final(read).done_spec(),
            old(read).taken_spec().len() <= final(read).taken_spec().len(),
            final(read).taken_spec().take(old(read).taken_spec().len() as int) == old(
                read,
            ).taken_spec(),
            final(serial).next_id_spec() == old(serial).next_id_spec(),
            final(serial).subs_spec().len() == old(serial).subs_spec().len(),
            read_took_buffered(
                old(serial).subs_spec(),
                final(serial).subs_spec(),
                self.receiver_spec(),
                old(read).taken_spec(),
                final(read).taken_spec(),
                old(read).max_len_spec(),
                r,
                waiter,
            ),
    ;

    /// Writes `data`; returns how many bytes were taken.
    fn write(&self, data: &Vec<u8>) -> (r: ResourceResult<usize>)
        ensures
            r matches Ok(n) ==> n <= data@.len(),
    ;
}

impl Resource for Term {
    open spec fn receiver_spec(&self) -> u64 {
        self.receiver
    }

    fn read(&self, serial: &mut Sender<u8>, read: &mut LineRead, waiter: u64) -> (r: bool) {
        self.read_buffered(serial, read, waiter)
    }

    /// Writing to the terminal is not supported.
    fn write(&self, data: &Vec<u8>) -> (r: ResourceResult<usize>) {
        Err(ResourceError::NotSupported)
    }
}

impl Resource for BoxedResource {
    open spec fn receiver_spec(&self) -> u64 {
        match self {
            BoxedResource::Term(t) => t.receiver,
        }
    }

    fn read(&self, serial: &mut Sender<u8>, read: &mut LineRead, waiter: u64) -> (r: bool) {
        match self {
            BoxedResource::Term(t) => t.read(serial, read, waiter),
        }
    }

    fn write(&self, data: &Vec<u8>) -> (r: ResourceResult<usize>) {
        match self {
            BoxedResource::Term(t) => t.write(data),
        }
    }
}

} // verus!
