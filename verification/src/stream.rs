//! Chunk-based byte stream abstraction with a one-slot pushback buffer.
//!
//! A stream is modelled by the sequence of bytes it still has to deliver
//! (`content`), the pushback slot (`pushback`, always a prefix of
//! `content`), and the bytes written so far (`written`). A consumer that
//! reads past a logical message boundary gives the excess back with
//! `restore_payload`; the next `read_chunk` returns exactly those bytes
//! before touching the transport again.
//!
//! [`TestStreamWrapper`] is the deterministic in-memory transport the tests
//! run against; live transports implement the same trait outside the
//! verified core.

use vstd::prelude::*;
use vstd::string::*;

verus! {

/// Failure of a stream operation.
#[derive(Debug)]
pub enum StreamError {
    /// The transport has no bytes left: a closed or broken connection.
    Closed,
    /// Any other transport failure, with the transport's own description.
    Failed(String),
}

impl StreamError {
    /// The description a transport failure carries, surfaced unmodified;
    /// a closed connection has a fixed one.
    pub fn description(&self) -> (r: String)
        ensures
            self matches StreamError::Failed(m) ==> r@ == m@,
            self is Closed ==> r@ == "connection closed"@,
    {
        match self {
            StreamError::Closed => String::from_str("connection closed"),
            StreamError::Failed(m) => m.clone(),
        }
    }
}

/// A duplex byte stream read and written in bounded chunks.
pub trait AbstractStream: Sized {
    /// Bytes not yet delivered to a reader: the pushback slot followed by
    /// everything the transport still holds. An implementation outside
    /// the verified core may leave the model items at their defaults,
    /// under which nothing is promised of it.
    open spec fn content(&self) -> Seq<u8> {
        Seq::empty()
    }

    /// Bytes pending in the one-slot pushback buffer.
    open spec fn pushback(&self) -> Seq<u8> {
        Seq::empty()
    }

    /// All bytes written so far.
    open spec fn written(&self) -> Seq<u8> {
        Seq::empty()
    }

    /// The chunk size fixed at construction.
    open spec fn chunk_size(&self) -> nat {
        0
    }

    /// Well-formed stream state; established at construction and kept by
    /// every operation.
    open spec fn wf(&self) -> bool {
        false
    }


    /// The fixed chunk size negotiated at construction.
    fn buffer_size(&self) -> (r: usize)
        requires
            self.wf(),
        ensures
            r == self.chunk_size(),
    ;

    /// Best-effort peer address; `None` when the transport has none.
    fn peer_addr(&self) -> (r: Option<String>)
        requires
            self.wf(),
    ;

    /// Returns the pushback contents if present (clearing the slot), else
    /// one chunk of up to `chunk_size` bytes. A successful read is never
    /// empty; a drained transport reports an error instead.
    fn read_chunk(&mut self) -> (r: Result<Vec<u8>, StreamError>)
        requires
            old(self).wf(),
        ensures
            final(self).wf(),
            final(self).chunk_size() == old(self).chunk_size(),
            final(self).written() == old(self).written(),
            match r {
                Ok(chunk) => {
                    &&& chunk@.len() > 0
                    &&& chunk@.len() <= old(self).content().len()
                    &&& chunk@ == old(self).content().take(chunk@.len() as int)
                    &&& final(self).content() == old(self).content().skip(chunk@.len() as int)
                    &&& final(self).pushback().len() == 0
                    &&& (old(self).pushback().len() > 0 ==> chunk@ == old(self).pushback())
                    &&& (old(self).pushback().len() == 0 ==> chunk@.len()
                        <= old(self).chunk_size())
                },
                Err(_) => {
                    &&& final(self).content() == old(self).content()
                    &&& final(self).pushback() == old(self).pushback()
                    &&& old(self).content().len() == 0
                    &&& final(self).pushback().len() == 0
                },
            },
    ;

    /// Writes all bytes before returning; partial writes are not
    /// observable.
    fn write_chunk(&mut self, bytes: &[u8]) -> (r: Result<(), StreamError>)
        requires
            old(self).wf(),
        ensures
            final(self).wf(),
            final(self).chunk_size() == old(self).chunk_size(),
            final(self).content() == old(self).content(),
            final(self).pushback() == old(self).pushback(),
            match r {
                Ok(_) => final(self).written() == old(self).written() + bytes@,
                Err(_) => final(self).written() == old(self).written(),
            },
    ;

    /// Stores over-read bytes for the next `read_chunk`. The slot must be
    /// drained before it is filled again.
    fn restore_payload(&mut self, bytes: &[u8]) -> (r: Result<(), StreamError>)
        requires
            old(self).wf(),
            old(self).pushback().len() == 0,
        ensures
            final(self).wf(),
            final(self).chunk_size() == old(self).chunk_size(),
            final(self).written() == old(self).written(),
            r is Ok,
            final(self).pushback() == bytes@,
            final(self).content() == bytes@ + old(self).content(),
            final(self).pushback().len() <= final(self).content().len(),
    ;

    /// Number of bytes pending in the pushback slot.
    fn restored_len(&self) -> (r: usize)
        requires
            self.wf(),
        ensures
            r == self.pushback().len(),
    ;

    /// Best-effort close; never changes what remains readable in the
    /// model, and errors are not propagated as fatal.
    fn shutdown(&mut self) -> (r: Result<(), StreamError>)
        requires
            old(self).wf(),
        ensures
            final(self).wf(),
            final(self).chunk_size() == old(self).chunk_size(),
            final(self).content() == old(self).content(),
            final(self).pushback() == old(self).pushback(),
            final(self).written() == old(self).written(),
    ;
}

/// Deterministic in-memory stream: reads consume a fixed byte sequence in
/// `buffer_size` chunks, writes are captured for inspection.
pub struct TestStreamWrapper {
    test_data: Vec<u8>,
    buffer_size: usize,
    restored_payload: Vec<u8>,
    written_data: Vec<u8>,
}

impl TestStreamWrapper {
    /// A stream that will deliver exactly `test_data`.
    pub fn new(test_data: Vec<u8>, buffer_size: usize) -> (r: Self)
        requires
            buffer_size > 0,
        ensures
            r.wf(),
            r.content() == test_data@,
            r.pushback().len() == 0,
            r.written() == Seq::<u8>::empty(),
            r.chunk_size() == buffer_size,
    {
        Self { test_data, buffer_size, restored_payload: Vec::new(), written_data: Vec::new() }
    }

    /// Everything written to the stream so far.
    pub fn written_bytes(&self) -> (r: &Vec<u8>)
        ensures
            r@ == self.written(),
    {
        &self.written_data
    }
}

impl AbstractStream for TestStreamWrapper {
    closed spec fn content(&self) -> Seq<u8> {
        self.restored_payload@ + self.test_data@
    }

    closed spec fn pushback(&self) -> Seq<u8> {
        self.restored_payload@
    }

    closed spec fn written(&self) -> Seq<u8> {
        self.written_data@
    }

    closed spec fn chunk_size(&self) -> nat {
        self.buffer_size as nat
    }

    closed spec fn wf(&self) -> bool {
        self.buffer_size > 0
    }

    fn buffer_size(&self) -> usize {
        self.buffer_size
    }

    fn peer_addr(&self) -> Option<String> {
        None
    }

    fn read_chunk(&mut self) -> (r: Result<Vec<u8>, StreamError>) {
        if self.restored_payload.len() > 0 {
            let mut out: Vec<u8> = Vec::new();
            out.append(&mut self.restored_payload);
            proof {
                assert(out@ == old(self).content().take(out@.len() as int)) by {
                    assert(old(self).content().take(out@.len() as int) =~= out@);
                }
                assert(self.content() =~= old(self).content().skip(out@.len() as int));
            }
            return Ok(out);
        }
        let avail: usize = self.test_data.len();
        let n: usize = if self.buffer_size < avail {
            self.buffer_size
        } else {
            avail
        };
        if n == 0 {
            return Err(StreamError::Closed);
        }
        let s = self.test_data.as_slice();
        let chunk = vstd::slice::slice_to_vec(&s[0..n]);
        let rest = vstd::slice::slice_to_vec(&s[n..avail]);
        self.test_data = rest;
        proof {
            assert(chunk@ == old(self).content().take(n as int)) by {
                assert(old(self).content().take(n as int) =~= chunk@);
            }
            assert(self.content() =~= old(self).content().skip(n as int));
        }
        Ok(chunk)
    }

    fn write_chunk(&mut self, bytes: &[u8]) -> (r: Result<(), StreamError>) {
        let mut tmp = vstd::slice::slice_to_vec(bytes);
        self.written_data.append(&mut tmp);
        Ok(())
    }

    fn restore_payload(&mut self, bytes: &[u8]) -> (r: Result<(), StreamError>) {
        self.restored_payload = vstd::slice::slice_to_vec(bytes);
        proof {
            assert(self.content() =~= bytes@ + old(self).content());
        }
        Ok(())
    }

    fn restored_len(&self) -> usize {
        self.restored_payload.len()
    }

    fn shutdown(&mut self) -> (r: Result<(), StreamError>) {
        Ok(())
    }
}

} // verus!
