//! The session: a connection plus the unsolicited-response channel, the
//! commands of the quota extension, and the compression negotiation that
//! consumes the session and rebuilds it around a compressing transport.

use vstd::prelude::*;

use crate::channel::UnsolicitedChannel;
use crate::collect::{
    collect_check_ok, frames_of, parse_get_quota, parse_get_quota_root,
    passed_by_quota, passed_by_quota_root, quota_roots_of, quotas_of, stop_idx,
};
use crate::errors::Error;
use crate::frames::{completes_ok, is_completion, Quota, QuotaRoot};
use crate::ids::IdGenerator;
use crate::protocol::ProtocolStream;
use crate::stream::DeflateStream;
use crate::transport::DuplexTransport;

verus! {

/// The decimal digits of `n`, most significant first, no leading zeros
/// (a lone zero for zero).
pub open spec fn dec_rep(n: u64) -> Seq<u8>
    decreases n,
{
    if n < 10 {
        seq![(48 + n) as u8]
    } else {
        dec_rep(n / 10).push((48 + n % 10) as u8)
    }
}

/// One complete command line: the decimal tag, a space, the command text,
/// and the line terminator.
pub open spec fn command_line(tag: u64, command: Seq<u8>) -> Seq<u8> {
    dec_rep(tag) + seq![32u8] + command + seq![13u8, 10u8]
}

/// Appends the decimal digits of `n`.
fn push_dec(n: u64, out: &mut Vec<u8>)
    ensures
        final(out)@ == old(out)@ + dec_rep(n),
    decreases n,
{
    if n >= 10 {
        push_dec(n / 10, out);
    }
    out.push(48 + (n % 10) as u8);
    proof {
        assert(out@ =~= old(out)@ + dec_rep(n));
    }
}

/// Builds the wire form of one tagged command line.
pub fn format_command_line(tag: u64, command: &[u8]) -> (v: Vec<u8>)
    ensures
        v@ == command_line(tag, command@),
{
    let mut v: Vec<u8> = Vec::new();
    push_dec(tag, &mut v);
    v.push(32);
    v.extend_from_slice(command);
    v.push(13);
    v.push(10);
    proof {
        assert(v@ =~= command_line(tag, command@));
    }
    v
}

/// The quota-lookup command for one quota root.
pub open spec fn getquota_command(root: Seq<u8>) -> Seq<u8> {
    seq![71u8, 69u8, 84u8, 81u8, 85u8, 79u8, 84u8, 65u8, 32u8] + root
}

/// The quota-root query command for one mailbox.
pub open spec fn getquotaroot_command(mailbox: Seq<u8>) -> Seq<u8> {
    seq![71u8, 69u8, 84u8, 81u8, 85u8, 79u8, 84u8, 65u8, 82u8, 79u8, 79u8, 84u8, 32u8] + mailbox
}

/// The compression negotiation command: one protocol line naming the
/// mechanism.
pub open spec fn compress_command() -> Seq<u8> {
    seq![
        67u8, 79u8, 77u8, 80u8, 82u8, 69u8, 83u8, 83u8, 32u8, 68u8, 69u8, 70u8, 76u8, 65u8,
        84u8, 69u8,
    ]
}

fn build_getquota(root: &[u8]) -> (v: Vec<u8>)
    ensures
        v@ == getquota_command(root@),
{
    let mut v: Vec<u8> = vec![71u8, 69u8, 84u8, 81u8, 85u8, 79u8, 84u8, 65u8, 32u8];
    v.extend_from_slice(root);
    proof {
        assert(v@ =~= getquota_command(root@));
    }
    v
}

fn build_getquotaroot(mailbox: &[u8]) -> (v: Vec<u8>)
    ensures
        v@ == getquotaroot_command(mailbox@),
{
    let mut v: Vec<u8> = vec![
        71u8, 69u8, 84u8, 81u8, 85u8, 79u8, 84u8, 65u8, 82u8, 79u8, 79u8, 84u8, 32u8,
    ];
    v.extend_from_slice(mailbox);
    proof {
        assert(v@ =~= getquotaroot_command(mailbox@));
    }
    v
}

fn build_compress() -> (v: Vec<u8>)
    ensures
        v@ == compress_command(),
{
    let v: Vec<u8> = vec![
        67u8, 79u8, 77u8, 80u8, 82u8, 69u8, 83u8, 83u8, 32u8, 68u8, 69u8, 70u8, 76u8, 65u8,
        84u8, 69u8,
    ];
    proof {
        assert(v@ =~= compress_command());
    }
    v
}

/// One open connection: the frame-level stream and the allocator of
/// correlation tags for the commands issued over it.
pub struct Connection<P: ProtocolStream> {
    pub stream: P,
    pub request_ids: IdGenerator,
}

impl<P: ProtocolStream> Connection<P> {
    /// Issues `command` under a fresh tag and drains responses until that
    /// tag's completion, forwarding every preceding frame to the unsolicited
    /// channel. On success the peer accepted the command; a failure
    /// completion is a rejected handshake; a write failure is a transport
    /// failure with nothing consumed.
    pub fn run_command_and_check_ok(
        &mut self,
        command: &[u8],
        unsolicited: &mut UnsolicitedChannel,
    ) -> (r: Result<(), Error>)
        requires
            old(self).request_ids.next_tag() < u64::MAX,
        ensures
            ({
                let tag = old(self).request_ids.next_tag();
                let s = old(self).stream.frames();
                let n = stop_idx(s, tag);
                let pre = frames_of(s.take(n));
                &&& final(self).request_ids.next_tag() == tag + 1
                &&& final(self).stream.inner_of() == old(self).stream.inner_of()
                &&& (r matches Ok(()) ==> n < s.len() && (s[n] matches Ok(f) && completes_ok(
                    f,
                    tag,
                )) && final(self).stream.lines() == old(self).stream.lines().push(
                    command_line(tag, command@),
                ) && final(self).stream.frames() == s.skip(n + 1) && final(unsolicited).queued()
                    == old(unsolicited).queued() + pre)
                &&& ((n < s.len() && (s[n] matches Ok(f) && is_completion(f, tag)
                    && !completes_ok(f, tag))) ==> (r == Err::<(), Error>(Error::HandshakeRejected)
                    || r == Err::<(), Error>(Error::Transport)))
                &&& ((n < s.len() && (s[n] matches Ok(f) && completes_ok(f, tag))) ==> (r
                    == Ok::<(), Error>(()) || r == Err::<(), Error>(Error::Transport)))
                &&& (n == s.len() ==> (r == Err::<(), Error>(Error::Protocol) || r == Err::<
                    (),
                    Error,
                >(Error::Transport)))
                &&& (n < s.len() ==> (s[n] matches Err(e) ==> (r == Err::<(), Error>(e) || r
                    == Err::<(), Error>(Error::Transport))))
            }),
    {
        let tag = self.request_ids.generate();
        let line = format_command_line(tag, command);
        match self.stream.write_line(line.as_slice()) {
            Ok(()) => {},
            Err(e) => {
                return Err(e);
            },
        }
        proof {
            crate::collect::lemma_stop_idx_in_range(old(self).stream.frames(), tag);
        }
        collect_check_ok(&mut self.stream, unsolicited, tag)
    }
}

/// One protocol session: the connection and the channel on which frames not
/// claimed by any collector are handed to the application.
pub struct Session<P: ProtocolStream> {
    pub conn: Connection<P>,
    pub unsolicited: UnsolicitedChannel,
}

impl<P: ProtocolStream> Session<P> {
    /// A session over a freshly opened connection: tags start at zero and
    /// no unsolicited frame is pending.
    pub fn new(stream: P) -> (s: Self)
        ensures
            s.conn.stream == stream,
            s.conn.request_ids.next_tag() == 0,
            s.unsolicited.queued() == Seq::<crate::frames::ResponseFrame>::empty(),
    {
        Session {
            conn: Connection { stream, request_ids: IdGenerator::new() },
            unsolicited: UnsolicitedChannel::new(),
        }
    }

    /// Looks up the quota of one quota root: issues the lookup under a
    /// fresh tag and collects until the completion frame. The result is the
    /// last quota record the peer sent before completing; completing with
    /// none is a `MissingResponse` failure the caller may retry.
    pub fn get_quota(&mut self, quota_root: &[u8]) -> (r: Result<Quota, Error>)
        requires
            old(self).conn.request_ids.next_tag() < u64::MAX,
        ensures
            ({
                let tag = old(self).conn.request_ids.next_tag();
                let s = old(self).conn.stream.frames();
                let n = stop_idx(s, tag);
                let pre = frames_of(s.take(n));
                &&& final(self).conn.request_ids.next_tag() == tag + 1
                &&& (r matches Ok(q) ==> n < s.len() && (s[n] matches Ok(f) && is_completion(
                    f,
                    tag,
                )) && quotas_of(pre).len() > 0 && q == quotas_of(pre).last() && final(self).conn.stream.lines() == old(self).conn.stream.lines().push(
                    command_line(tag, getquota_command(quota_root@)),
                ) && final(self).conn.stream.frames() == s.skip(n + 1) && final(self).unsolicited.queued() == old(self).unsolicited.queued() + passed_by_quota(pre))
                &&& ((n < s.len() && (s[n] matches Ok(f) && is_completion(f, tag)) && quotas_of(
                    pre,
                ).len() == 0) ==> (r == Err::<Quota, Error>(Error::MissingResponse) || r
                    == Err::<Quota, Error>(Error::Transport)))
                &&& ((n < s.len() && (s[n] matches Ok(f) && is_completion(f, tag)) && quotas_of(
                    pre,
                ).len() > 0) ==> ((r matches Ok(q2) && q2 == quotas_of(pre).last()) || r
                    == Err::<Quota, Error>(Error::Transport)))
                &&& (n == s.len() ==> (r == Err::<Quota, Error>(Error::Protocol) || r == Err::<
                    Quota,
                    Error,
                >(Error::Transport)))
                &&& (n < s.len() ==> (s[n] matches Err(e) ==> (r == Err::<Quota, Error>(e) || r
                    == Err::<Quota, Error>(Error::Transport))))
            }),
    {
        let tag = self.conn.request_ids.generate();
        let cmd = build_getquota(quota_root);
        let line = format_command_line(tag, cmd.as_slice());
        match self.conn.stream.write_line(line.as_slice()) {
            Ok(()) => {},
            Err(e) => {
                return Err(e);
            },
        }
        proof {
            crate::collect::lemma_stop_idx_in_range(old(self).conn.stream.frames(), tag);
        }
        parse_get_quota(&mut self.conn.stream, &mut self.unsolicited, tag)
    }

    /// Queries the quota roots of one mailbox and all quotas that apply to
    /// them. Completing with no matching frames yields two empty sequences,
    /// never an error.
    pub fn get_quota_root(&mut self, mailbox: &[u8]) -> (r: Result<
        (Vec<QuotaRoot>, Vec<Quota>),
        Error,
    >)
        requires
            old(self).conn.request_ids.next_tag() < u64::MAX,
        ensures
            ({
                let tag = old(self).conn.request_ids.next_tag();
                let s = old(self).conn.stream.frames();
                let n = stop_idx(s, tag);
                let pre = frames_of(s.take(n));
                &&& final(self).conn.request_ids.next_tag() == tag + 1
                &&& (r matches Ok(pair) ==> n < s.len() && (s[n] matches Ok(f) && is_completion(
                    f,
                    tag,
                )) && pair.0@ == quota_roots_of(pre) && pair.1@ == quotas_of(pre) && final(self).conn.stream.lines() == old(self).conn.stream.lines().push(
                    command_line(tag, getquotaroot_command(mailbox@)),
                ) && final(self).conn.stream.frames() == s.skip(n + 1) && final(self).unsolicited.queued() == old(self).unsolicited.queued() + passed_by_quota_root(
                    pre,
                ))
                &&& ((n < s.len() && (s[n] matches Ok(f) && is_completion(f, tag))) ==> ((
                r matches Ok(pair2) && pair2.0@ == quota_roots_of(pre) && pair2.1@ == quotas_of(
                    pre,
                )) || r == Err::<(Vec<QuotaRoot>, Vec<Quota>), Error>(Error::Transport)))
                &&& (n == s.len() ==> (r == Err::<(Vec<QuotaRoot>, Vec<Quota>), Error>(
                    Error::Protocol,
                ) || r == Err::<(Vec<QuotaRoot>, Vec<Quota>), Error>(Error::Transport)))
                &&& (n < s.len() ==> (s[n] matches Err(e) ==> (r == Err::<
                    (Vec<QuotaRoot>, Vec<Quota>),
                    Error,
                >(e) || r == Err::<(Vec<QuotaRoot>, Vec<Quota>), Error>(Error::Transport))))
            }),
    {
        let tag = self.conn.request_ids.generate();
        let cmd = build_getquotaroot(mailbox);
        let line = format_command_line(tag, cmd.as_slice());
        match self.conn.stream.write_line(line.as_slice()) {
            Ok(()) => {},
            Err(e) => {
                return Err(e);
            },
        }
        proof {
            crate::collect::lemma_stop_idx_in_range(old(self).conn.stream.frames(), tag);
        }
        parse_get_quota_root(&mut self.conn.stream, &mut self.unsolicited, tag)
    }
}

impl<P: ProtocolStream> Session<P> where P::Inner: DuplexTransport {
    /// Negotiates transport compression: issues the negotiation command
    /// under a fresh tag with the trivial classifier (every preceding frame
    /// is unsolicited), and on a success completion takes the raw transport
    /// out of the connection, wraps it in a fresh [`DeflateStream`], lets
    /// the caller wrap that further, and rebuilds the session around the
    /// result with a fresh tag generator. On any failure the session is
    /// gone: a partial negotiation leaves the transport framing ambiguous,
    /// so the caller must reconnect.
    pub fn compress<P2: ProtocolStream, F: FnOnce(DeflateStream<P::Inner>) -> P2>(
        self,
        wrap: F,
    ) -> (r: Result<Session<P2>, Error>)
        requires
            self.conn.request_ids.next_tag() < u64::MAX,
            forall|ds: DeflateStream<P::Inner>|
                (#[trigger] ds.wf() && ds.units().len() == 0 && ds.pending().len() == 0
                    && ds.delivered().len() == 0 && ds.buffered().len() == 0
                    && ds.wire_consumed().len() == 0) ==> call_requires(wrap, (ds,)),
        ensures
            ({
                let tag = self.conn.request_ids.next_tag();
                let s = self.conn.stream.frames();
                let n = stop_idx(s, tag);
                let pre = frames_of(s.take(n));
                &&& (r matches Ok(s2) ==> n < s.len() && (s[n] matches Ok(f) && completes_ok(
                    f,
                    tag,
                )) && s2.conn.request_ids.next_tag() == 0 && s2.unsolicited.queued()
                    == self.unsolicited.queued() + pre && (exists|ds: DeflateStream<P::Inner>|
                    ds.wf() && ds.transport() == self.conn.stream.inner_of() && ds.units().len()
                        == 0 && ds.pending().len() == 0 && ds.delivered().len() == 0
                        && ds.buffered().len() == 0 && ds.wire_consumed().len() == 0
                        && call_ensures(wrap, (ds,), s2.conn.stream)))
                &&& ((n < s.len() && (s[n] matches Ok(f) && completes_ok(f, tag))) ==> ((
                r matches Ok(_)) || (r matches Err(e2) && e2 == Error::Transport)))
                &&& ((n < s.len() && (s[n] matches Ok(f) && is_completion(f, tag)
                    && !completes_ok(f, tag))) ==> (r matches Err(e) && (e
                    == Error::HandshakeRejected || e == Error::Transport)))
                &&& (n == s.len() ==> (r matches Err(e) && (e == Error::Protocol || e
                    == Error::Transport)))
                &&& (n < s.len() ==> (s[n] matches Err(e) ==> (r matches Err(e2) && (e2 == e
                    || e2 == Error::Transport))))
            }),
    {
        let Session { mut conn, mut unsolicited } = self;
        let cmd = build_compress();
        match conn.run_command_and_check_ok(cmd.as_slice(), &mut unsolicited) {
            Ok(()) => {},
            Err(e) => {
                return Err(e);
            },
        }
        let transport = conn.stream.into_inner();
        let deflate_stream = DeflateStream::new(transport);
        let stream = wrap(deflate_stream);
        let conn2 = Connection { stream, request_ids: IdGenerator::new() };
        Ok(Session { conn: conn2, unsolicited })
    }
}

} // verus!
