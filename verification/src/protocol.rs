//! The session's interface to one connection: command lines go down, parsed
//! response frames come up, and the underlying byte transport can be taken
//! back out when the transport is about to be rewrapped. The tokenizer that
//! turns bytes into frames is a collaborator outside this crate; the scripted
//! implementation below stands in for it in proofs and tests.

use vstd::prelude::*;

use crate::errors::Error;
use crate::frames::ResponseFrame;
use crate::transport::MemTransport;

verus! {

/// A live connection at the frame level. `lines()` is the history of command
/// lines written; `frames()` is what the peer will deliver next, each item
/// either a parsed frame or the error that reading or parsing it produced.
pub trait ProtocolStream: Sized {
    /// The byte transport the stream is built over.
    type Inner;

    /// History of command lines accepted, in order.
    spec fn lines(&self) -> Seq<Seq<u8>>;

    /// The frame events still to be delivered, oldest first.
    spec fn frames(&self) -> Seq<Result<ResponseFrame, Error>>;

    /// The underlying transport as it would be handed back now. Writing
    /// lines and delivering frames leave it unchanged: the line and frame
    /// views are accounted separately from the transport view, so the
    /// transport a caller takes back out is the one the stream was built
    /// over.
    spec fn inner_of(&self) -> Self::Inner;

    /// Writes one complete command line, or fails. A failed write is a
    /// transport failure and leaves the connection as it was: nothing of the
    /// line is recorded as accepted.
    fn write_line(&mut self, line: &[u8]) -> (r: Result<(), Error>)
        ensures
            r matches Ok(()) ==> final(self).lines() == old(self).lines().push(line@)
                && final(self).frames() == old(self).frames(),
            r matches Err(e) ==> e == Error::Transport && *final(self) == *old(self),
            final(self).inner_of() == old(self).inner_of(),
    ;

    /// Delivers the next frame event; `None` means the source has ended.
    fn next_frame(&mut self) -> (r: Option<Result<ResponseFrame, Error>>)
        ensures
            final(self).lines() == old(self).lines(),
            final(self).inner_of() == old(self).inner_of(),
            old(self).frames().len() == 0 ==> r is None
                && final(self).frames() == old(self).frames(),
            old(self).frames().len() > 0 ==> r == Some(old(self).frames()[0])
                && final(self).frames() == old(self).frames().skip(1),
    ;

    /// Consumes the stream and hands the byte transport back.
    fn into_inner(self) -> (t: Self::Inner)
        ensures
            t == self.inner_of(),
    ;
}

/// A scripted connection: the peer's frame events are given up front and
/// every line written is recorded. The reference implementor of
/// [`ProtocolStream`].
pub struct MemProtocolStream {
    script: Vec<Result<ResponseFrame, Error>>,
    written: Vec<Vec<u8>>,
    inner: MemTransport,
}

impl MemProtocolStream {
    /// A connection whose peer will deliver exactly `script`, over `inner`.
    pub fn new(script: Vec<Result<ResponseFrame, Error>>, inner: MemTransport) -> (s: Self)
        ensures
            s.frames() == script@,
            s.lines() == Seq::<Seq<u8>>::empty(),
            s.inner_of() == inner,
    {
        MemProtocolStream { script, written: Vec::new(), inner }
    }

    /// The lines written so far, for inspection by tests.
    pub fn written_lines(&self) -> (w: &Vec<Vec<u8>>)
        ensures
            w@.map_values(|l: Vec<u8>| l@) == self.lines(),
    {
        &self.written
    }
}

impl ProtocolStream for MemProtocolStream {
    type Inner = MemTransport;

    closed spec fn lines(&self) -> Seq<Seq<u8>> {
        self.written@.map_values(|l: Vec<u8>| l@)
    }

    closed spec fn frames(&self) -> Seq<Result<ResponseFrame, Error>> {
        self.script@
    }

    closed spec fn inner_of(&self) -> MemTransport {
        self.inner
    }

    fn write_line(&mut self, line: &[u8]) -> (r: Result<(), Error>) {
        let mut copy: Vec<u8> = Vec::new();
        copy.extend_from_slice(line);
        proof {
            assert(copy@ =~= line@);
        }
        self.written.push(copy);
        proof {
            assert(self.written@.map_values(|l: Vec<u8>| l@)
                =~= old(self).written@.map_values(|l: Vec<u8>| l@).push(line@));
        }
        Ok(())
    }

    fn next_frame(&mut self) -> (r: Option<Result<ResponseFrame, Error>>) {
        if self.script.len() == 0 {
            None
        } else {
            Some(self.script.remove(0))
        }
    }

    fn into_inner(self) -> (t: MemTransport) {
        self.inner
    }
}

} // verus!
