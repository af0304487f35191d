//! The compressing duplex-stream wrapper substituted for the raw transport
//! after a successful negotiation. Callers keep reasoning in plaintext
//! terms: a write reports plaintext bytes accepted, a read delivers
//! plaintext bytes, and everything that actually crosses the inner
//! transport is one raw DEFLATE stream per direction.

use vstd::prelude::*;

use crate::deflate::{deflate_wire, Compressor, Decompressor};
use crate::errors::Error;
use crate::transport::DuplexTransport;

verus! {

/// How many compressed bytes one read pulls from the transport at most.
pub const READ_CHUNK_BYTES: usize = 4096;

/// A duplex byte stream compressed with DEFLATE in both directions,
/// exclusively owning the inner transport plus the compressor and
/// decompressor state and a buffer of decompressed bytes not yet delivered
/// to the reader.
pub struct DeflateStream<T: DuplexTransport> {
    inner: T,
    enc: Compressor,
    dec: Decompressor,
    outbuf: Vec<u8>,
    outpos: usize,
    base_sent: Ghost<Seq<u8>>,
    delivered: Ghost<Seq<u8>>,
}

impl<T: DuplexTransport> DeflateStream<T> {
    /// The inner transport as it stands now.
    pub closed spec fn transport(&self) -> T {
        self.inner
    }

    /// What the inner transport had already sent when the wrapper was
    /// constructed: the pre-compression traffic.
    pub closed spec fn sent_before_wrap(&self) -> Seq<u8> {
        self.base_sent@
    }

    /// The flush units closed on the write path so far.
    pub closed spec fn units(&self) -> Seq<Seq<u8>> {
        self.enc.done()
    }

    /// Plaintext accepted since the last flush.
    pub closed spec fn pending(&self) -> Seq<u8> {
        self.enc.pending()
    }

    /// All plaintext accepted for sending so far, flushed or not.
    pub open spec fn plain_written(&self) -> Seq<u8> {
        self.units().flatten() + self.pending()
    }

    /// All plaintext delivered to the reader so far.
    pub closed spec fn delivered(&self) -> Seq<u8> {
        self.delivered@
    }

    /// Decompressed bytes waiting in the wrapper, not yet delivered.
    pub closed spec fn buffered(&self) -> Seq<u8> {
        self.outbuf@.skip(self.outpos as int)
    }

    /// Every compressed byte taken off the transport and fed to the
    /// decompressor so far.
    pub closed spec fn wire_consumed(&self) -> Seq<u8> {
        self.dec.consumed()
    }

    /// Well-formedness: every compressed byte the compressor emitted has
    /// been forwarded to the transport, the delivery buffer cursor is in
    /// bounds, and everything the decompressor produced was either
    /// delivered or is still buffered. An I/O or decompression error leaves
    /// the wrapper outside this state for good: errors are fatal.
    pub closed spec fn wf(&self) -> bool {
        &&& self.inner.sent() == self.base_sent@ + self.enc.emitted()
        &&& self.outpos <= self.outbuf@.len()
        &&& self.dec.produced() == self.delivered@ + self.buffered()
    }

    /// The stream as it would be if the transport alone were replaced.
    pub closed spec fn with_transport(self, t: T) -> Self {
        DeflateStream { inner: t, ..self }
    }

    /// Wraps an existing transport; both directions start fresh DEFLATE
    /// streams, and nothing already sent or pending on the transport is
    /// disturbed.
    pub fn new(stream: T) -> (s: Self)
        ensures
            s.wf(),
            s.transport() == stream,
            s.sent_before_wrap() == stream.sent(),
            s.units() == Seq::<Seq<u8>>::empty(),
            s.pending() == Seq::<u8>::empty(),
            s.delivered() == Seq::<u8>::empty(),
            s.buffered() == Seq::<u8>::empty(),
            s.wire_consumed() == Seq::<u8>::empty(),
    {
        let ghost base = stream.sent();
        let s = DeflateStream {
            inner: stream,
            enc: Compressor::new(),
            dec: Decompressor::new(),
            outbuf: Vec::new(),
            outpos: 0,
            base_sent: Ghost(base),
            delivered: Ghost(Seq::empty()),
        };
        proof {
            assert(s.buffered() =~= Seq::<u8>::empty());
        }
        s
    }

    /// Gets a reference to the underlying stream.
    pub fn get_ref(&self) -> (r: &T)
        ensures
            *r == self.transport(),
    {
        &self.inner
    }

    /// Gets a mutable reference to the underlying stream, for diagnostics;
    /// writing protocol traffic through it would bypass the compressor.
    pub fn get_mut(&mut self) -> (r: &mut T)
        ensures
            *r == old(self).transport(),
            *final(self) == old(self).with_transport(*final(r)),
    {
        &mut self.inner
    }

    /// Consumes the wrapper and returns the underlying stream.
    pub fn into_inner(self) -> (r: T)
        ensures
            r == self.transport(),
    {
        self.inner
    }

    /// Feeds plaintext to the compressor and forwards whatever compressed
    /// bytes it emitted. Reports the number of plaintext bytes accepted;
    /// callers reason in plaintext terms, never in compressed bytes.
    pub fn write(&mut self, data: &[u8]) -> (r: Result<usize, Error>)
        requires
            old(self).wf(),
        ensures
            r matches Ok(n) ==> n == data@.len()
                && final(self).wf()
                && final(self).units() == old(self).units()
                && final(self).pending() == old(self).pending() + data@
                && final(self).sent_before_wrap() == old(self).sent_before_wrap()
                && final(self).delivered() == old(self).delivered()
                && final(self).buffered() == old(self).buffered()
                && final(self).wire_consumed() == old(self).wire_consumed()
                && final(self).transport().avail() == old(self).transport().avail(),
    {
        let out = self.enc.feed(data);
        match self.inner.write_all(&out) {
            Ok(()) => {
                proof {
                    assert(self.inner.sent() =~= self.base_sent@ + self.enc.emitted());
                }
                Ok(data.len())
            },
            Err(e) => Err(e),
        }
    }

    /// Vectored variant of `write`: feeds the buffers in order, as one
    /// write of their concatenation.
    pub fn write_vectored(&mut self, bufs: &Vec<Vec<u8>>) -> (r: Result<(), Error>)
        requires
            old(self).wf(),
        ensures
            r matches Ok(()) ==> final(self).wf()
                && final(self).units() == old(self).units()
                && final(self).pending() == old(self).pending() + bufs@.map_values(
                |b: Vec<u8>| b@,
            ).flatten()
                && final(self).sent_before_wrap() == old(self).sent_before_wrap()
                && final(self).delivered() == old(self).delivered()
                && final(self).buffered() == old(self).buffered()
                && final(self).wire_consumed() == old(self).wire_consumed()
                && final(self).transport().avail() == old(self).transport().avail(),
    {
        let ghost views = bufs@.map_values(|b: Vec<u8>| b@);
        let mut i: usize = 0;
        proof {
            assert(views.take(0) =~= Seq::<Seq<u8>>::empty());
            assert(views.take(0).flatten() =~= Seq::<u8>::empty());
        }
        while i < bufs.len()
            invariant
                old(self).wf(),
                0 <= i <= bufs@.len(),
                views == bufs@.map_values(|b: Vec<u8>| b@),
                self.wf(),
                self.units() == old(self).units(),
                self.pending() == old(self).pending() + views.take(i as int).flatten(),
                self.sent_before_wrap() == old(self).sent_before_wrap(),
                self.delivered() == old(self).delivered(),
                self.buffered() == old(self).buffered(),
                self.wire_consumed() == old(self).wire_consumed(),
                self.transport().avail() == old(self).transport().avail(),
            decreases bufs@.len() - i,
        {
            match self.write(bufs[i].as_slice()) {
                Ok(_) => {},
                Err(e) => {
                    return Err(e);
                },
            }
            i = i + 1;
            proof {
                assert(views.take(i as int).drop_last() =~= views.take(i - 1));
                views.take(i - 1).lemma_flatten_push(views[i - 1]);
                assert(views.take(i as int) =~= views.take(i - 1).push(views[i - 1]));
                assert(self.pending() =~= old(self).pending() + views.take(i as int).flatten());
            }
        }
        proof {
            assert(views.take(views.len() as int) =~= views);
        }
        Ok(())
    }

    /// Pushes all compressor-internal state through to the transport and
    /// flushes the transport itself, so the peer can decode everything
    /// written so far without waiting for more input: on success the bytes
    /// on the wire since the wrap are exactly the DEFLATE encoding of the
    /// closed flush units.
    pub fn flush(&mut self) -> (r: Result<(), Error>)
        requires
            old(self).wf(),
        ensures
            r matches Ok(()) ==> final(self).wf()
                && final(self).units() == old(self).units().push(old(self).pending())
                && final(self).pending() == Seq::<u8>::empty()
                && final(self).plain_written() == old(self).plain_written()
                && final(self).sent_before_wrap() == old(self).sent_before_wrap()
                && final(self).transport().sent() == old(self).sent_before_wrap()
                    + deflate_wire(final(self).units())
                && final(self).delivered() == old(self).delivered()
                && final(self).buffered() == old(self).buffered()
                && final(self).wire_consumed() == old(self).wire_consumed()
                && final(self).transport().avail() == old(self).transport().avail(),
    {
        let out = self.enc.flush();
        match self.inner.write_all(&out) {
            Ok(()) => {},
            Err(e) => {
                return Err(e);
            },
        }
        match self.inner.flush() {
            Ok(()) => {
                proof {
                    old(self).units().lemma_flatten_push(old(self).pending());
                    assert(self.plain_written() =~= old(self).plain_written());
                    assert(self.inner.sent() =~= self.base_sent@ + self.enc.emitted());
                    assert(self.inner.sent() =~= old(self).sent_before_wrap() + deflate_wire(
                        self.units(),
                    ));
                }
                Ok(())
            },
            Err(e) => Err(e),
        }
    }

    /// First flushes, then closes the transport: never the one without the
    /// other, so the peer sees a complete flush boundary before the end.
    /// The stream ends at that sync-flush boundary without a final DEFLATE
    /// block: the wire carries raw DEFLATE until the session ends, and the
    /// peer needs no trailer to decode everything written.
    pub fn close(&mut self) -> (r: Result<(), Error>)
        requires
            old(self).wf(),
        ensures
            r matches Ok(()) ==> final(self).wf()
                && final(self).units() == old(self).units().push(old(self).pending())
                && final(self).pending() == Seq::<u8>::empty()
                && final(self).plain_written() == old(self).plain_written()
                && final(self).transport().sent() == old(self).sent_before_wrap()
                    + deflate_wire(final(self).units())
                && final(self).delivered() == old(self).delivered(),
    {
        match self.flush() {
            Ok(()) => {},
            Err(e) => {
                return Err(e);
            },
        }
        self.inner.close()
    }

    /// Delivers up to `max` plaintext bytes: from the buffer of already
    /// decompressed bytes if any are waiting — that path touches nothing
    /// fallible and always succeeds — otherwise by pulling one chunk of
    /// compressed bytes off the transport and decompressing it. A
    /// decompression failure is an error, never an end of stream, and
    /// buffered bytes are never dropped.
    pub fn read(&mut self, max: usize) -> (r: Result<Vec<u8>, Error>)
        requires
            old(self).wf(),
        ensures
            old(self).buffered().len() > 0 ==> r is Ok,
            r matches Ok(v) ==> v@.len() <= max
                && final(self).wf()
                && final(self).delivered() == old(self).delivered() + v@
                && ((old(self).buffered().len() > 0 && max > 0) ==> v@.len() > 0)
                && ((v@.len() == 0 && max > 0) ==> old(self).buffered().len() == 0)
                && final(self).units() == old(self).units()
                && final(self).pending() == old(self).pending()
                && final(self).sent_before_wrap() == old(self).sent_before_wrap()
                && final(self).transport().sent() == old(self).transport().sent()
                && (exists|k: int|
                    0 <= k <= old(self).transport().avail().len()
                        && final(self).wire_consumed() == old(self).wire_consumed()
                        + old(self).transport().avail().take(k)
                        && final(self).transport().avail() == old(self).transport().avail().skip(
                        k,
                    )
                        && ((old(self).buffered().len() == 0 && old(
                        self,
                    ).transport().avail().len() > 0) ==> k > 0)),
    {
        if self.outpos >= self.outbuf.len() {
            let chunk = match self.inner.read_chunk(READ_CHUNK_BYTES) {
                Ok(c) => c,
                Err(e) => {
                    return Err(e);
                },
            };
            let plain = match self.dec.feed(chunk.as_slice()) {
                Ok(p) => p,
                Err(e) => {
                    return Err(e);
                },
            };
            proof {
                assert(old(self).buffered() =~= Seq::<u8>::empty());
            }
            self.outbuf = plain;
            self.outpos = 0;
            proof {
                assert(self.buffered() =~= self.outbuf@);
                assert(self.dec.produced() =~= self.delivered@ + self.buffered());
                let k = chunk@.len() as int;
                assert(self.wire_consumed() =~= old(self).wire_consumed() + old(
                    self,
                ).transport().avail().take(k));
                assert(self.transport().avail() == old(self).transport().avail().skip(k));
            }
        } else {
            proof {
                assert(self.transport().avail().take(0) =~= Seq::<u8>::empty());
                assert(self.transport().avail().skip(0) =~= self.transport().avail());
            }
        }
        let ghost mid = *self;
        let avail_now = self.outbuf.len() - self.outpos;
        let n = if max < avail_now {
            max
        } else {
            avail_now
        };
        let end = self.outpos + n;
        let mut v: Vec<u8> = Vec::new();
        let mut idx: usize = self.outpos;
        while idx < end
            invariant
                mid.outpos <= idx <= end,
                end <= self.outbuf@.len(),
                v@ == self.outbuf@.subrange(mid.outpos as int, idx as int),
                *self == mid,
            decreases end - idx,
        {
            v.push(self.outbuf[idx]);
            idx = idx + 1;
            proof {
                assert(v@ == self.outbuf@.subrange(mid.outpos as int, idx as int)) by {
                    assert(self.outbuf@.subrange(mid.outpos as int, idx as int)
                        =~= self.outbuf@.subrange(mid.outpos as int, idx - 1).push(
                        self.outbuf@[idx - 1],
                    ));
                }
            }
        }
        let ghost pre_buffered = self.buffered();
        self.outpos = end;
        proof {
            self.delivered = Ghost(self.delivered@ + v@);
            assert(v@ =~= pre_buffered.take(n as int));
            assert(self.buffered() =~= pre_buffered.skip(n as int));
            assert(self.delivered@ + self.buffered() =~= self.dec.produced());
        }
        Ok(v)
    }

    /// Vectored variant of `read`: fills one result per requested capacity,
    /// in order, each as one `read` of that many bytes at most.
    pub fn read_vectored(&mut self, maxes: &Vec<usize>) -> (r: Result<Vec<Vec<u8>>, Error>)
        requires
            old(self).wf(),
        ensures
            r matches Ok(vs) ==> final(self).wf()
                && vs@.len() == maxes@.len()
                && (forall|i: int| 0 <= i < vs@.len() ==> #[trigger] vs@[i]@.len() <= maxes@[i])
                && final(self).delivered() == old(self).delivered() + vs@.map_values(
                |b: Vec<u8>| b@,
            ).flatten()
                && final(self).units() == old(self).units()
                && final(self).pending() == old(self).pending()
                && final(self).sent_before_wrap() == old(self).sent_before_wrap()
                && final(self).transport().sent() == old(self).transport().sent(),
    {
        let mut vs: Vec<Vec<u8>> = Vec::new();
        let mut i: usize = 0;
        proof {
            assert(vs@.map_values(|b: Vec<u8>| b@).take(0).flatten() =~= Seq::<u8>::empty());
        }
        while i < maxes.len()
            invariant
                old(self).wf(),
                0 <= i <= maxes@.len(),
                vs@.len() == i,
                forall|j: int| 0 <= j < i ==> #[trigger] vs@[j]@.len() <= maxes@[j],
                self.wf(),
                self.delivered() == old(self).delivered() + vs@.map_values(
                    |b: Vec<u8>| b@,
                ).flatten(),
                self.units() == old(self).units(),
                self.pending() == old(self).pending(),
                self.sent_before_wrap() == old(self).sent_before_wrap(),
                self.transport().sent() == old(self).transport().sent(),
            decreases maxes@.len() - i,
        {
            let piece = match self.read(maxes[i]) {
                Ok(v) => v,
                Err(e) => {
                    return Err(e);
                },
            };
            let ghost piece_view = piece@;
            let ghost old_views = vs@.map_values(|b: Vec<u8>| b@);
            vs.push(piece);
            i = i + 1;
            proof {
                old_views.lemma_flatten_push(piece_view);
                assert(vs@.map_values(|b: Vec<u8>| b@) =~= old_views.push(piece_view));
                assert(self.delivered() =~= old(self).delivered() + vs@.map_values(
                    |b: Vec<u8>| b@,
                ).flatten());
            }
        }
        Ok(vs)
    }

    /// Reads to completion: delivers everything already buffered, then
    /// keeps pulling and decompressing transport chunks until the peer has
    /// nothing more available. If the compressed bytes consumed by then are
    /// exactly what a peer compressor emitted up to a flush boundary, the
    /// total plaintext delivered over this stream's lifetime is exactly the
    /// plaintext that peer had written: the flush boundary alone is enough,
    /// no further writer input is awaited.
    pub fn read_to_end(&mut self) -> (r: Result<Vec<u8>, Error>)
        requires
            old(self).wf(),
        ensures
            r matches Ok(v) ==> final(self).wf()
                && final(self).delivered() == old(self).delivered() + v@
                && final(self).buffered() == Seq::<u8>::empty()
                && final(self).units() == old(self).units()
                && final(self).pending() == old(self).pending()
                && final(self).transport().sent() == old(self).transport().sent()
                && final(self).transport().avail() == Seq::<u8>::empty()
                && final(self).wire_consumed() == old(self).wire_consumed()
                    + old(self).transport().avail()
                && (forall|units: Seq<Seq<u8>>| final(self).wire_consumed() == deflate_wire(units)
                    ==> final(self).delivered() == units.flatten()),
    {
        let mut collected: Vec<u8> = Vec::new();
        let mut j: usize = self.outpos;
        while j < self.outbuf.len()
            invariant
                old(self).outpos <= j <= self.outbuf@.len(),
                collected@ == self.outbuf@.subrange(old(self).outpos as int, j as int),
                self == old(self),
            decreases self.outbuf@.len() - j,
        {
            collected.push(self.outbuf[j]);
            j = j + 1;
            proof {
                assert(collected@ == self.outbuf@.subrange(old(self).outpos as int, j as int))
                    by {
                    assert(self.outbuf@.subrange(old(self).outpos as int, j as int)
                        =~= self.outbuf@.subrange(old(self).outpos as int, j - 1).push(
                        self.outbuf@[j - 1],
                    ));
                }
            }
        }
        let ghost pre_buffered = self.buffered();
        self.outpos = self.outbuf.len();
        proof {
            self.delivered = Ghost(self.delivered@ + collected@);
            assert(collected@ =~= pre_buffered);
            assert(self.buffered() =~= Seq::<u8>::empty());
            assert(self.delivered@ + self.buffered() =~= self.dec.produced());
        }
        let ghost avail0 = self.inner.avail();
        let ghost wc0 = self.dec.consumed();
        let ghost mut c: int = 0;
        loop
            invariant
                self.wf(),
                0 <= c <= avail0.len(),
                self.inner.avail() == avail0.skip(c),
                self.dec.consumed() == wc0 + avail0.take(c),
                self.delivered@ == old(self).delivered() + collected@,
                self.buffered() == Seq::<u8>::empty(),
                self.enc == old(self).enc,
                self.base_sent == old(self).base_sent,
                self.inner.sent() == old(self).inner.sent(),
                avail0 == old(self).transport().avail(),
                wc0 == old(self).wire_consumed(),
            decreases avail0.len() - c,
        {
            let chunk = match self.inner.read_chunk(READ_CHUNK_BYTES) {
                Ok(ch) => ch,
                Err(e) => {
                    return Err(e);
                },
            };
            if chunk.len() == 0 {
                proof {
                    assert(avail0.skip(c).len() == 0);
                    assert(avail0.take(c) =~= avail0);
                }
                let mut tail = match self.dec.feed(&[]) {
                    Ok(p) => p,
                    Err(e) => {
                        return Err(e);
                    },
                };
                let ghost tail_view = tail@;
                collected.append(&mut tail);
                proof {
                    self.delivered = Ghost(self.delivered@ + tail_view);
                    assert(self.delivered@ + self.buffered() =~= self.dec.produced());
                    assert(self.dec.consumed() =~= wc0 + avail0);
                    assert(forall|units: Seq<Seq<u8>>|
                        self.dec.consumed() == deflate_wire(units) ==> self.delivered@
                            == units.flatten());
                }
                return Ok(collected);
            }
            let mut plain = match self.dec.feed(chunk.as_slice()) {
                Ok(p) => p,
                Err(e) => {
                    return Err(e);
                },
            };
            let ghost plain_view = plain@;
            collected.append(&mut plain);
            proof {
                self.delivered = Ghost(self.delivered@ + plain_view);
                assert(self.delivered@ + self.buffered() =~= self.dec.produced());
                assert(self.delivered@ =~= old(self).delivered() + collected@);
                let k = chunk@.len() as int;
                assert(chunk@ =~= avail0.skip(c).take(k));
                assert(self.inner.avail() =~= avail0.skip(c + k));
                assert(wc0 + avail0.take(c) + avail0.skip(c).take(k) =~= wc0 + avail0.take(
                    c + k,
                ));
                c = c + k;
            }
        }
    }
}

} // verus!
