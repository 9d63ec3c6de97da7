//! In-memory byte queues that back the guest's standard streams and its
//! result file.
//!
//! A sink (`StdoutPipe`) collects what the guest writes and is drained by the
//! host; a source (`StdinPipe`) is filled by the host and read by the guest.
//! Each is a plain queue of bytes: sharing one queue between the guest's
//! handle and the host's handle is done by the embedding program, which holds
//! it behind a lock.

use std::collections::VecDeque;
use std::string::FromUtf8Error;
use vstd::prelude::*;
use vstd::string::StringSliceAdditionalSpecFns;
use vstd::utf8::*;

verus! {

#[verifier::external_type_specification]
#[verifier::external_body]
pub struct ExFromUtf8Error(FromUtf8Error);

/// Relies on `String::from_utf8`: it succeeds exactly on valid UTF-8 and
/// then holds the decoded characters.
#[verifier::external_body]
fn string_from_utf8(bytes: Vec<u8>) -> (r: Result<String, FromUtf8Error>)
    ensures
        r is Ok <==> valid_utf8(bytes@),
        r matches Ok(s) ==> s@ == decode_utf8(bytes@),
{
    String::from_utf8(bytes)
}

/// Moves up to `max` bytes from the front of `queue` out, in order.
fn drain_queue(queue: &mut VecDeque<u8>, max: usize) -> (r: Vec<u8>)
    ensures
        r@.len() == if old(queue)@.len() < max { old(queue)@.len() } else { max as nat },
        r@ == old(queue)@.subrange(0, r@.len() as int),
        final(queue)@ == old(queue)@.subrange(r@.len() as int, old(queue)@.len() as int),
{
    let mut out: Vec<u8> = Vec::new();
    let ghost start = queue@;
    while out.len() < max
        invariant
            out@.len() <= max,
            out@.len() <= start.len(),
            out@ == start.subrange(0, out@.len() as int),
            queue@ == start.subrange(out@.len() as int, start.len() as int),
        ensures
            out@.len() == if start.len() < max { start.len() } else { max as nat },
            out@ == start.subrange(0, out@.len() as int),
            queue@ == start.subrange(out@.len() as int, start.len() as int),
        decreases max - out@.len(),
    {
        match queue.pop_front() {
            Some(b) => {
                out.push(b);
            },
            None => {
                break;
            },
        }
    }
    out
}

/// A writable byte sink: the guest's stdout, stderr or result file.
pub struct StdoutPipe {
    buffer: VecDeque<u8>,
}

impl View for StdoutPipe {
    type V = Seq<u8>;

    closed spec fn view(&self) -> Seq<u8> {
        self.buffer@
    }
}

impl StdoutPipe {
    /// An empty sink.
    pub fn new() -> (p: StdoutPipe)
        ensures
            p@ == Seq::<u8>::empty(),
    {
        StdoutPipe { buffer: VecDeque::new() }
    }

    /// Appends all of `buf`; never refuses bytes.
    pub fn write(&mut self, buf: &[u8]) -> (n: usize)
        ensures
            final(self)@ == old(self)@ + buf@,
            n == buf@.len(),
    {
        let mut i: usize = 0;
        while i < buf.len()
            invariant
                i <= buf@.len(),
                self@ == old(self)@ + buf@.subrange(0, i as int),
            decreases buf@.len() - i,
        {
            self.buffer.push_back(buf[i]);
            i = i + 1;
            assert(buf@.subrange(0, i as int) == buf@.subrange(0, i - 1 as int).push(buf@[i - 1]));
        }
        assert(buf@.subrange(0, i as int) == buf@);
        i
    }

    /// Nothing is buffered beyond the queue itself.
    pub fn flush(&mut self)
        ensures
            final(self)@ == old(self)@,
    {
    }

    /// Moves every buffered byte out, leaving the sink empty.
    pub fn read_all(&mut self) -> (r: Vec<u8>)
        ensures
            r@ == old(self)@,
            final(self)@ == Seq::<u8>::empty(),
    {
        let ghost before = self@;
        let len = self.buffer.len();
        let r = drain_queue(&mut self.buffer, len);
        assert(before.subrange(0, before.len() as int) == before);
        r
    }

    /// Moves every buffered byte out and decodes it as UTF-8; the sink is
    /// empty afterwards whether or not the bytes were valid.
    pub fn read_all_to_string(&mut self) -> (r: Result<String, FromUtf8Error>)
        ensures
            r is Ok <==> valid_utf8(old(self)@),
            r matches Ok(s) ==> s@ == decode_utf8(old(self)@),
            final(self)@ == Seq::<u8>::empty(),
    {
        let bytes = self.read_all();
        string_from_utf8(bytes)
    }
}

/// A readable byte source: the guest's stdin.
pub struct StdinPipe {
    buffer: VecDeque<u8>,
}

impl View for StdinPipe {
    type V = Seq<u8>;

    closed spec fn view(&self) -> Seq<u8> {
        self.buffer@
    }
}

impl StdinPipe {
    /// An empty source.
    pub fn new() -> (p: StdinPipe)
        ensures
            p@ == Seq::<u8>::empty(),
    {
        StdinPipe { buffer: VecDeque::new() }
    }

    /// Appends `bytes` for the guest to read.
    pub fn write(&mut self, bytes: &[u8])
        ensures
            final(self)@ == old(self)@ + bytes@,
    {
        let mut i: usize = 0;
        while i < bytes.len()
            invariant
                i <= bytes@.len(),
                self@ == old(self)@ + bytes@.subrange(0, i as int),
            decreases bytes@.len() - i,
        {
            self.buffer.push_back(bytes[i]);
            i = i + 1;
            assert(bytes@.subrange(0, i as int) == bytes@.subrange(0, i - 1 as int).push(
                bytes@[i - 1],
            ));
        }
        assert(bytes@.subrange(0, i as int) == bytes@);
    }

    /// Appends the UTF-8 encoding of `s`.
    pub fn write_str(&mut self, s: &str)
        ensures
            final(self)@ == old(self)@ + s.spec_bytes(),
    {
        self.write(s.as_bytes())
    }

    /// Moves up to `buf.len()` bytes from the front of the queue into the
    /// front of `buf` and returns how many; zero means the queue is empty
    /// (or `buf` is).
    pub fn read(&mut self, buf: &mut [u8]) -> (n: usize)
        ensures
            n == if old(self)@.len() < old(buf)@.len() { old(self)@.len() } else { old(buf)@.len() },
            final(buf)@.len() == old(buf)@.len(),
            final(buf)@.subrange(0, n as int) == old(self)@.subrange(0, n as int),
            final(buf)@.subrange(n as int, old(buf)@.len() as int) == old(buf)@.subrange(
                n as int,
                old(buf)@.len() as int,
            ),
            final(self)@ == old(self)@.subrange(n as int, old(self)@.len() as int),
    {
        let max = buf.len();
        let bytes = drain_queue(&mut self.buffer, max);
        let n = bytes.len();
        let mut i: usize = 0;
        while i < n
            invariant
                n == bytes@.len(),
                n <= buf@.len(),
                i <= n,
                buf@.len() == old(buf)@.len(),
                forall|j: int| 0 <= j < i ==> buf@[j] == bytes@[j],
                forall|j: int| i <= j < buf@.len() ==> buf@[j] == old(buf)@[j],
            decreases n - i,
        {
            buf[i] = bytes[i];
            i = i + 1;
        }
        assert(buf@.subrange(0, n as int) == bytes@);
        assert(buf@.subrange(n as int, old(buf)@.len() as int) == old(buf)@.subrange(
            n as int,
            old(buf)@.len() as int,
        ));
        n
    }
}

} // verus!
