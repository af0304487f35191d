//! The duplex byte-stream capability the session is built over: readable,
//! writable, flushable, closable. A TLS socket adapter on the application
//! side and the in-memory transport below both provide it; the compressing
//! wrapper is constructed over any implementor.

use vstd::prelude::*;

use crate::errors::Error;

verus! {

/// A single object offering both readable and writable byte-stream
/// capability over one connection.
///
/// `sent()` is the history of bytes accepted for the peer; `avail()` is the
/// sequence of inbound bytes ready to be read, oldest first. Any failure is
/// fatal to the stream: after an error nothing further is promised of it.
pub trait DuplexTransport: Sized {
    /// All bytes accepted for sending so far, in order.
    spec fn sent(&self) -> Seq<u8>;

    /// The inbound bytes ready to be read, oldest first.
    spec fn avail(&self) -> Seq<u8>;

    /// Accepts all of `data` for the peer, or fails.
    fn write_all(&mut self, data: &[u8]) -> (r: Result<(), Error>)
        ensures
            r matches Ok(()) ==> final(self).sent() == old(self).sent() + data@
                && final(self).avail() == old(self).avail(),
    ;

    /// Pushes everything accepted so far towards the peer.
    fn flush(&mut self) -> (r: Result<(), Error>)
        ensures
            r matches Ok(()) ==> final(self).sent() == old(self).sent()
                && final(self).avail() == old(self).avail(),
    ;

    /// Reads the next chunk of inbound bytes, at most `max` of them. An
    /// empty result with `max > 0` means nothing is available: a read must
    /// make progress whenever it can.
    fn read_chunk(&mut self, max: usize) -> (r: Result<Vec<u8>, Error>)
        ensures
            r matches Ok(v) ==> v@.len() <= max
                && v@.len() <= old(self).avail().len()
                && v@ == old(self).avail().take(v@.len() as int)
                && final(self).avail() == old(self).avail().skip(v@.len() as int)
                && final(self).sent() == old(self).sent()
                && ((old(self).avail().len() > 0 && max > 0) ==> v@.len() > 0),
    ;

    /// Closes the connection; everything accepted is pushed out first.
    fn close(&mut self) -> (r: Result<(), Error>)
        ensures
            r matches Ok(()) ==> final(self).sent() == old(self).sent()
                && final(self).avail() == old(self).avail(),
    ;
}

/// An in-memory duplex transport: the peer's bytes are scripted up front,
/// and everything written is kept for inspection. Used by the tests and as
/// the reference implementor of [`DuplexTransport`].
pub struct MemTransport {
    inbound: Vec<u8>,
    read_pos: usize,
    outbound: Vec<u8>,
}

impl MemTransport {
    /// A transport whose peer will deliver exactly `inbound`.
    pub fn new(inbound: Vec<u8>) -> (t: Self)
        ensures
            t.avail() == inbound@,
            t.sent() == Seq::<u8>::empty(),
    {
        MemTransport { inbound, read_pos: 0, outbound: Vec::new() }
    }

    /// Consumes the transport and hands out everything written to it.
    pub fn take_sent(self) -> (v: Vec<u8>)
        ensures
            v@ == self.sent(),
    {
        self.outbound
    }
}

impl DuplexTransport for MemTransport {
    closed spec fn sent(&self) -> Seq<u8> {
        self.outbound@
    }

    closed spec fn avail(&self) -> Seq<u8> {
        if self.read_pos <= self.inbound@.len() {
            self.inbound@.skip(self.read_pos as int)
        } else {
            Seq::empty()
        }
    }

    fn write_all(&mut self, data: &[u8]) -> (r: Result<(), Error>)
    {
        let mut j: usize = 0;
        while j < data.len()
            invariant
                j <= data.len(),
                self.outbound@ == old(self).outbound@ + data@.take(j as int),
                self.inbound@ == old(self).inbound@,
                self.read_pos == old(self).read_pos,
            decreases data.len() - j,
        {
            self.outbound.push(data[j]);
            j = j + 1;
            proof {
                assert(self.outbound@ == old(self).outbound@ + data@.take(j as int))
                by {
                    assert(data@.take(j as int) =~= data@.take(j - 1).push(data@[j - 1]));
                }
            }
        }
        proof {
            assert(data@.take(data@.len() as int) =~= data@);
        }
        Ok(())
    }

    fn flush(&mut self) -> (r: Result<(), Error>) {
        Ok(())
    }

    fn read_chunk(&mut self, max: usize) -> (r: Result<Vec<u8>, Error>) {
        if self.read_pos > self.inbound.len() {
            return Ok(Vec::new());
        }
        let remaining = self.inbound.len() - self.read_pos;
        let k = if max < remaining { max } else { remaining };
        let mut v: Vec<u8> = Vec::new();
        let mut j: usize = 0;
        while j < k
            invariant
                j <= k,
                k <= self.inbound.len() - self.read_pos,
                v@ == self.inbound@.subrange(self.read_pos as int, self.read_pos + j),
                self == old(self),
            decreases k - j,
        {
            v.push(self.inbound[self.read_pos + j]);
            j = j + 1;
            proof {
                assert(v@ == self.inbound@.subrange(self.read_pos as int, self.read_pos + j))
                by {
                    assert(self.inbound@.subrange(self.read_pos as int, self.read_pos + j)
                        =~= self.inbound@.subrange(
                            self.read_pos as int,
                            self.read_pos + j - 1,
                        ).push(self.inbound@[self.read_pos + j - 1]));
                }
            }
        }
        let ghost pre = self.avail();
        self.read_pos = self.read_pos + k;
        proof {
            assert(v@ =~= pre.take(k as int));
            assert(self.avail() =~= pre.skip(k as int));
        }
        Ok(v)
    }

    fn close(&mut self) -> (r: Result<(), Error>) {
        Ok(())
    }
}

} // verus!
