//! The streaming DEFLATE codec behind the compressing stream wrapper. The
//! codec itself is `flate2`'s; its behaviour enters the proofs only through
//! the trusted contracts below.
//!
//! The model: a compressor's life is a sequence of *flush units*, the runs
//! of plaintext between synchronisation flushes. `deflate_wire(units)` names
//! the exact byte sequence a fresh compressor at the fixed default settings
//! has emitted once `units[0]`, `units[1]`, ... have each been fed and
//! sync-flushed; the codec is deterministic, so that sequence is a function
//! of the units alone. A decompressor that has consumed exactly such a wire
//! has produced exactly the concatenation of the units: DEFLATE is lossless
//! and a sync flush makes everything fed so far decodable without waiting
//! for later input.

use vstd::prelude::*;

use std::io::Write;

use crate::errors::Error;

verus! {

/// The bytes a fresh compressor at the default settings has emitted after
/// feeding and sync-flushing each unit in turn.
pub uninterp spec fn deflate_wire(units: Seq<Seq<u8>>) -> Seq<u8>;

/// Opaque handle on `flate2::write::DeflateEncoder<Vec<u8>>`; its state is
/// described solely by the ghost fields of [`Compressor`].
#[verifier::external_body]
struct EncoderHandle {
    inner: flate2::write::DeflateEncoder<Vec<u8>>,
}

/// Opaque handle on `flate2::write::DeflateDecoder<Vec<u8>>`; its state is
/// described solely by the ghost fields of [`Decompressor`].
#[verifier::external_body]
struct DecoderHandle {
    inner: flate2::write::DeflateDecoder<Vec<u8>>,
}

/// The outbound half of the codec: a streaming compressor. `done()` is the
/// sequence of flush units already closed by a sync flush, `pending()` the
/// plaintext fed since the last flush, `emitted()` every compressed byte
/// handed out so far.
pub struct Compressor {
    state: EncoderHandle,
    done: Ghost<Seq<Seq<u8>>>,
    pending: Ghost<Seq<u8>>,
    emitted: Ghost<Seq<u8>>,
}

impl Compressor {
    /// The flush units closed so far.
    pub closed spec fn done(&self) -> Seq<Seq<u8>> {
        self.done@
    }

    /// The plaintext fed since the last flush.
    pub closed spec fn pending(&self) -> Seq<u8> {
        self.pending@
    }

    /// Every compressed byte emitted so far, in order.
    pub closed spec fn emitted(&self) -> Seq<u8> {
        self.emitted@
    }

    /// A fresh compressor at the fixed default settings.
    ///
    /// Relies on `flate2::write::DeflateEncoder::new`: a new raw-DEFLATE
    /// compressor has consumed and emitted nothing.
    #[verifier::external_body]
    pub fn new() -> (c: Self)
        ensures
            c.done() == Seq::<Seq<u8>>::empty(),
            c.pending() == Seq::<u8>::empty(),
            c.emitted() == Seq::<u8>::empty(),
    {
        Compressor {
            state: EncoderHandle { inner: flate2::write::DeflateEncoder::new(Vec::new(), flate2::Compression::default()) },
            done: Ghost(Seq::empty()),
            pending: Ghost(Seq::empty()),
            emitted: Ghost(Seq::empty()),
        }
    }

    /// Feeds plaintext into the compressor and hands out whatever compressed
    /// bytes it chose to emit now; it may buffer instead.
    ///
    /// Relies on `flate2::write::DeflateEncoder`'s `Write::write_all`:
    /// compressing into a `Vec` sink performs no fallible I/O and accepts
    /// all input, emitting output only into the sink.
    #[verifier::external_body]
    pub fn feed(&mut self, data: &[u8]) -> (out: Vec<u8>)
        ensures
            final(self).done() == old(self).done(),
            final(self).pending() == old(self).pending() + data@,
            final(self).emitted() == old(self).emitted() + out@,
    {
        let _ = self.state.inner.write_all(data);
        core::mem::take(self.state.inner.get_mut())
    }

    /// Closes the current flush unit: pushes everything buffered through as
    /// a complete sync-flush boundary, so that all plaintext accepted so far
    /// is decodable by the peer from the bytes emitted so far.
    ///
    /// Relies on `flate2::write::DeflateEncoder`'s `Write::flush`: it runs
    /// the compressor with a sync flush and drains its whole internal buffer
    /// into the sink, and the codec is deterministic, so the total emission
    /// at this boundary is exactly `deflate_wire` of the closed units.
    #[verifier::external_body]
    pub fn flush(&mut self) -> (out: Vec<u8>)
        ensures
            final(self).done() == old(self).done().push(old(self).pending()),
            final(self).pending() == Seq::<u8>::empty(),
            final(self).emitted() == old(self).emitted() + out@,
            final(self).emitted() == deflate_wire(final(self).done()),
    {
        let _ = self.state.inner.flush();
        core::mem::take(self.state.inner.get_mut())
    }
}

/// The inbound half of the codec: a streaming decompressor. `consumed()` is
/// every compressed byte fed so far, `produced()` every plaintext byte it
/// has given back.
pub struct Decompressor {
    state: DecoderHandle,
    consumed: Ghost<Seq<u8>>,
    produced: Ghost<Seq<u8>>,
}

impl Decompressor {
    /// Every compressed byte fed so far, in order.
    pub closed spec fn consumed(&self) -> Seq<u8> {
        self.consumed@
    }

    /// Every plaintext byte produced so far, in order.
    pub closed spec fn produced(&self) -> Seq<u8> {
        self.produced@
    }

    /// A fresh decompressor for a raw DEFLATE stream.
    ///
    /// Relies on `flate2::write::DeflateDecoder::new`: a new decompressor
    /// has consumed and produced nothing.
    #[verifier::external_body]
    pub fn new() -> (d: Self)
        ensures
            d.consumed() == Seq::<u8>::empty(),
            d.produced() == Seq::<u8>::empty(),
    {
        Decompressor {
            state: DecoderHandle { inner: flate2::write::DeflateDecoder::new(Vec::new()) },
            consumed: Ghost(Seq::empty()),
            produced: Ghost(Seq::empty()),
        }
    }

    /// Feeds compressed bytes and hands out every plaintext byte that is
    /// decodable from what has been consumed so far. Malformed compressed
    /// data is an error, never a silent end of the stream; after an error
    /// nothing further is promised of the decompressor.
    ///
    /// Relies on `flate2::write::DeflateDecoder`'s `Write::write_all` and
    /// `Write::flush` into a `Vec` sink: decompression fails only on a
    /// malformed stream, and DEFLATE is lossless, so a decompressor that has
    /// consumed exactly the wire a compressor emitted up to a sync-flush
    /// boundary has produced exactly the plaintext fed to that compressor.
    #[verifier::external_body]
    pub fn feed(&mut self, data: &[u8]) -> (r: Result<Vec<u8>, Error>)
        ensures
            final(self).consumed() == old(self).consumed() + data@,
            r matches Ok(out) ==> final(self).produced() == old(self).produced() + out@,
            forall|units: Seq<Seq<u8>>| final(self).consumed() == deflate_wire(units)
                ==> ((r matches Ok(_)) && final(self).produced() == units.flatten()),
    {
        match self.state.inner.write_all(data).and_then(|_| self.state.inner.flush()) {
            Ok(()) => Ok(core::mem::take(self.state.inner.get_mut())),
            Err(_) => Err(Error::Compression),
        }
    }
}

/// Round-trip law: every plaintext byte sequence written through the
/// compressor side and flushed is recovered exactly, and in full, by a
/// paired decompressor fed only the bytes emitted up to that flush
/// boundary — the peer never waits for input beyond the flush.
pub fn deflate_round_trip(data: &[u8]) -> (r: Vec<u8>)
    ensures
        r@ == data@,
{
    let mut enc = Compressor::new();
    let mut out = enc.feed(data);
    let mut tail = enc.flush();
    out.append(&mut tail);
    proof {
        assert(enc.done() =~= seq![data@]);
        assert(out@ =~= enc.emitted());
        assert(seq![data@].flatten() =~= data@) by {
            seq![data@].lemma_flatten_singleton();
        }
    }
    let mut dec = Decompressor::new();
    let r = dec.feed(&out);
    match r {
        Ok(plain) => {
            proof {
                assert(dec.consumed() =~= deflate_wire(enc.done()));
            }
            plain
        },
        Err(_) => {
            proof {
                assert(dec.consumed() =~= deflate_wire(enc.done()));
                assert(false);
            }
            unreached()
        },
    }
}

} // verus!
