//! The tagged-response collection protocol: drain frame events from a live
//! stream until the completion frame of one outstanding command arrives,
//! route that extension's payloads into an accumulator, and forward every
//! other frame to the unsolicited side channel in arrival order. The
//! completion frame itself is consumed and forwarded nowhere.

use vstd::prelude::*;

use crate::channel::UnsolicitedChannel;
use crate::errors::Error;
use crate::frames::{
    classify_quota, classify_quota_root, frame_completes, is_completion, Quota, QuotaClass,
    QuotaRoot, QuotaRootClass, ResponseFrame,
};
use crate::protocol::ProtocolStream;

verus! {

/// Does this frame event end a collection for `tag`? A read or parse error
/// aborts the collection; the completion frame for `tag` finishes it.
pub open spec fn stops(item: Result<ResponseFrame, Error>, tag: u64) -> bool {
    match item {
        Ok(f) => is_completion(f, tag),
        Err(_) => true,
    }
}

/// Index of the first event that ends a collection for `tag`; `s.len()` if
/// the source would end first.
pub open spec fn stop_idx(s: Seq<Result<ResponseFrame, Error>>, tag: u64) -> int
    decreases s.len(),
{
    if s.len() == 0 {
        0
    } else if stops(s[0], tag) {
        0
    } else {
        1 + stop_idx(s.skip(1), tag)
    }
}

/// The frames carried by the `Ok` events of `s`, in order.
pub open spec fn frames_of(s: Seq<Result<ResponseFrame, Error>>) -> Seq<ResponseFrame>
    decreases s.len(),
{
    if s.len() == 0 {
        Seq::empty()
    } else {
        let rest = frames_of(s.drop_last());
        match s.last() {
            Ok(f) => rest.push(f),
            Err(_) => rest,
        }
    }
}

/// The quota usage records among `s`, in order.
pub open spec fn quotas_of(s: Seq<ResponseFrame>) -> Seq<Quota>
    decreases s.len(),
{
    if s.len() == 0 {
        Seq::empty()
    } else {
        let rest = quotas_of(s.drop_last());
        match s.last() {
            ResponseFrame::Quota(q) => rest.push(q),
            _ => rest,
        }
    }
}

/// The quota-root records among `s`, in order.
pub open spec fn quota_roots_of(s: Seq<ResponseFrame>) -> Seq<QuotaRoot>
    decreases s.len(),
{
    if s.len() == 0 {
        Seq::empty()
    } else {
        let rest = quota_roots_of(s.drop_last());
        match s.last() {
            ResponseFrame::QuotaRoot(qr) => rest.push(qr),
            _ => rest,
        }
    }
}

/// The frames of `s` that the quota-lookup classifier does not claim: all
/// but quota usage records, in order.
pub open spec fn passed_by_quota(s: Seq<ResponseFrame>) -> Seq<ResponseFrame>
    decreases s.len(),
{
    if s.len() == 0 {
        Seq::empty()
    } else {
        let rest = passed_by_quota(s.drop_last());
        match s.last() {
            ResponseFrame::Quota(_) => rest,
            f => rest.push(f),
        }
    }
}

/// The frames of `s` that the quota-root classifier does not claim: all but
/// quota usage and quota-root records, in order.
pub open spec fn passed_by_quota_root(s: Seq<ResponseFrame>) -> Seq<ResponseFrame>
    decreases s.len(),
{
    if s.len() == 0 {
        Seq::empty()
    } else {
        let rest = passed_by_quota_root(s.drop_last());
        match s.last() {
            ResponseFrame::Quota(_) => rest,
            ResponseFrame::QuotaRoot(_) => rest,
            f => rest.push(f),
        }
    }
}

/// The events the collector consumes from `s`: everything up to and
/// including the stopping event, or all of `s` if the source ends first.
pub open spec fn consumed_until_stop(s: Seq<Result<ResponseFrame, Error>>, tag: u64) -> int {
    if stop_idx(s, tag) < s.len() {
        stop_idx(s, tag) + 1
    } else {
        stop_idx(s, tag)
    }
}

/// The stop index is within range, and where it is a real index, the event
/// there is a stopping event: the tag's completion frame or a failure.
pub proof fn lemma_stop_idx_in_range(s: Seq<Result<ResponseFrame, Error>>, tag: u64)
    ensures
        0 <= stop_idx(s, tag) <= s.len(),
        stop_idx(s, tag) < s.len() ==> stops(s[stop_idx(s, tag)], tag),
    decreases s.len(),
{
    if s.len() != 0 && !stops(s[0], tag) {
        lemma_stop_idx_in_range(s.skip(1), tag);
    }
}

proof fn lemma_stop_idx_is_first(s: Seq<Result<ResponseFrame, Error>>, tag: u64, i: int)
    requires
        0 <= i <= s.len(),
        forall|j: int| 0 <= j < i ==> !stops(s[j], tag),
        i < s.len() ==> stops(s[i], tag),
    ensures
        stop_idx(s, tag) == i,
    decreases i,
{
    if i == 0 {
        if s.len() != 0 {
            assert(stops(s[0], tag));
        }
    } else {
        assert(!stops(s[0], tag));
        lemma_stop_idx_is_first(s.skip(1), tag, i - 1);
    }
}

proof fn lemma_take_snoc<A>(s: Seq<A>, i: int)
    requires
        0 <= i < s.len(),
    ensures
        s.take(i + 1).drop_last() == s.take(i),
        s.take(i + 1).last() == s[i],
{
    assert(s.take(i + 1).drop_last() =~= s.take(i));
}

proof fn lemma_frames_of_snoc(s: Seq<Result<ResponseFrame, Error>>, i: int)
    requires
        0 <= i < s.len(),
    ensures
        s[i] matches Ok(f) ==> frames_of(s.take(i + 1)) == frames_of(s.take(i)).push(f),
        s[i] matches Err(_) ==> frames_of(s.take(i + 1)) == frames_of(s.take(i)),
{
    lemma_take_snoc(s, i);
}

proof fn lemma_quota_classifier_push(p: Seq<ResponseFrame>, f: ResponseFrame)
    ensures
        f matches ResponseFrame::Quota(q) ==> quotas_of(p.push(f)) == quotas_of(p).push(q)
            && passed_by_quota(p.push(f)) == passed_by_quota(p),
        !(f matches ResponseFrame::Quota(_)) ==> quotas_of(p.push(f)) == quotas_of(p)
            && passed_by_quota(p.push(f)) == passed_by_quota(p).push(f),
{
    assert(p.push(f).drop_last() =~= p);
    assert(p.push(f).last() == f);
}

proof fn lemma_quota_root_classifier_push(p: Seq<ResponseFrame>, f: ResponseFrame)
    ensures
        f matches ResponseFrame::QuotaRoot(qr) ==> quota_roots_of(p.push(f))
            == quota_roots_of(p).push(qr) && passed_by_quota_root(p.push(f))
            == passed_by_quota_root(p) && quotas_of(p.push(f)) == quotas_of(p),
        f matches ResponseFrame::Quota(q) ==> quota_roots_of(p.push(f)) == quota_roots_of(p)
            && passed_by_quota_root(p.push(f)) == passed_by_quota_root(p)
            && quotas_of(p.push(f)) == quotas_of(p).push(q),
        !(f matches ResponseFrame::Quota(_)) && !(f matches ResponseFrame::QuotaRoot(_))
            ==> quota_roots_of(p.push(f)) == quota_roots_of(p)
            && passed_by_quota_root(p.push(f)) == passed_by_quota_root(p).push(f)
            && quotas_of(p.push(f)) == quotas_of(p),
{
    assert(p.push(f).drop_last() =~= p);
    assert(p.push(f).last() == f);
}

/// Collects the responses to a single-result quota lookup issued under
/// `command_tag`: frames are drained until that tag's completion frame, the
/// last quota usage record seen is the result, and every frame the
/// classifier does not claim goes to the unsolicited channel in arrival
/// order. A completion with no quota record is a `MissingResponse` failure;
/// a source that ends or fails before the completion aborts the collection
/// with that failure.
pub fn parse_get_quota<S: ProtocolStream>(
    stream: &mut S,
    unsolicited: &mut UnsolicitedChannel,
    command_tag: u64,
) -> (r: Result<Quota, Error>)
    ensures
        ({
            let s = old(stream).frames();
            let n = stop_idx(s, command_tag);
            let pre = frames_of(s.take(n));
            &&& final(stream).lines() == old(stream).lines()
            &&& final(stream).inner_of() == old(stream).inner_of()
            &&& final(stream).frames() == s.skip(consumed_until_stop(s, command_tag))
            &&& final(unsolicited).queued() == old(unsolicited).queued() + passed_by_quota(pre)
            &&& (if n == s.len() {
                r == Err::<Quota, Error>(Error::Protocol)
            } else {
                match s[n] {
                    Err(e) => r == Err::<Quota, Error>(e),
                    Ok(_) => {
                        if quotas_of(pre).len() > 0 {
                            r == Ok::<Quota, Error>(quotas_of(pre).last())
                        } else {
                            r == Err::<Quota, Error>(Error::MissingResponse)
                        }
                    },
                }
            })
        }),
{
    let ghost s = stream.frames();
    let ghost chan0 = unsolicited.queued();
    let mut found: Option<Quota> = None;
    let ghost mut i: int = 0;
    loop
        invariant
            0 <= i <= s.len(),
            stream.frames() == s.skip(i),
            stream.lines() == old(stream).lines(),
            stream.inner_of() == old(stream).inner_of(),
            forall|j: int| 0 <= j < i ==> !stops(s[j], command_tag),
            unsolicited.queued() == chan0 + passed_by_quota(frames_of(s.take(i))),
            found is None <==> quotas_of(frames_of(s.take(i))).len() == 0,
            found matches Some(q) ==> quotas_of(frames_of(s.take(i))).len() > 0
                && q == quotas_of(frames_of(s.take(i))).last(),
            chan0 == old(unsolicited).queued(),
            s == old(stream).frames(),
        decreases s.len() - i,
    {
        match stream.next_frame() {
            None => {
                proof {
                    assert(s.skip(i).len() == 0);
                    lemma_stop_idx_is_first(s, command_tag, i);
                }
                return Err(Error::Protocol);
            },
            Some(event) => {
                proof {
                    assert(s.skip(i)[0] == s[i]);
                    assert(s.skip(i).skip(1) =~= s.skip(i + 1));
                }
                match event {
                    Err(e) => {
                        proof {
                            lemma_stop_idx_is_first(s, command_tag, i);
                        }
                        return Err(e);
                    },
                    Ok(f) => {
                        if frame_completes(&f, command_tag) {
                            proof {
                                lemma_stop_idx_is_first(s, command_tag, i);
                            }
                            return match found {
                                Some(q) => Ok(q),
                                None => Err(Error::MissingResponse),
                            };
                        }
                        proof {
                            lemma_frames_of_snoc(s, i);
                            lemma_quota_classifier_push(frames_of(s.take(i)), f);
                        }
                        match classify_quota(f) {
                            QuotaClass::Usage(q) => {
                                found = Some(q);
                            },
                            QuotaClass::Pass(other) => {
                                unsolicited.publish(other);
                            },
                        }
                        proof {
                            i = i + 1;
                        }
                    },
                }
            },
        }
    }
}

/// Collects the responses to a multi-result quota-root query issued under
/// `command_tag`: frames are drained until that tag's completion frame,
/// quota-root and quota usage records are appended to the two result
/// sequences in arrival order, and every other frame goes to the unsolicited
/// channel. An empty pair of results is a normal outcome, not an error; a
/// source that ends or fails before the completion aborts the collection.
pub fn parse_get_quota_root<S: ProtocolStream>(
    stream: &mut S,
    unsolicited: &mut UnsolicitedChannel,
    command_tag: u64,
) -> (r: Result<(Vec<QuotaRoot>, Vec<Quota>), Error>)
    ensures
        ({
            let s = old(stream).frames();
            let n = stop_idx(s, command_tag);
            let pre = frames_of(s.take(n));
            &&& final(stream).lines() == old(stream).lines()
            &&& final(stream).inner_of() == old(stream).inner_of()
            &&& final(stream).frames() == s.skip(consumed_until_stop(s, command_tag))
            &&& final(unsolicited).queued() == old(unsolicited).queued()
                + passed_by_quota_root(pre)
            &&& (if n == s.len() {
                r matches Err(e) && e == Error::Protocol
            } else {
                match s[n] {
                    Err(e) => r matches Err(e2) && e2 == e,
                    Ok(_) => r matches Ok(pair) && pair.0@ == quota_roots_of(pre)
                        && pair.1@ == quotas_of(pre),
                }
            })
        }),
{
    let ghost s = stream.frames();
    let ghost chan0 = unsolicited.queued();
    let mut roots: Vec<QuotaRoot> = Vec::new();
    let mut quotas: Vec<Quota> = Vec::new();
    let ghost mut i: int = 0;
    loop
        invariant
            0 <= i <= s.len(),
            stream.frames() == s.skip(i),
            stream.lines() == old(stream).lines(),
            stream.inner_of() == old(stream).inner_of(),
            forall|j: int| 0 <= j < i ==> !stops(s[j], command_tag),
            unsolicited.queued() == chan0 + passed_by_quota_root(frames_of(s.take(i))),
            roots@ == quota_roots_of(frames_of(s.take(i))),
            quotas@ == quotas_of(frames_of(s.take(i))),
            chan0 == old(unsolicited).queued(),
            s == old(stream).frames(),
        decreases s.len() - i,
    {
        match stream.next_frame() {
            None => {
                proof {
                    assert(s.skip(i).len() == 0);
                    lemma_stop_idx_is_first(s, command_tag, i);
                }
                return Err(Error::Protocol);
            },
            Some(event) => {
                proof {
                    assert(s.skip(i)[0] == s[i]);
                    assert(s.skip(i).skip(1) =~= s.skip(i + 1));
                }
                match event {
                    Err(e) => {
                        proof {
                            lemma_stop_idx_is_first(s, command_tag, i);
                        }
                        return Err(e);
                    },
                    Ok(f) => {
                        if frame_completes(&f, command_tag) {
                            proof {
                                lemma_stop_idx_is_first(s, command_tag, i);
                            }
                            return Ok((roots, quotas));
                        }
                        proof {
                            lemma_frames_of_snoc(s, i);
                            lemma_quota_root_classifier_push(frames_of(s.take(i)), f);
                        }
                        match classify_quota_root(f) {
                            QuotaRootClass::Root(qr) => {
                                roots.push(qr);
                            },
                            QuotaRootClass::Usage(q) => {
                                quotas.push(q);
                            },
                            QuotaRootClass::Pass(other) => {
                                unsolicited.publish(other);
                            },
                        }
                        proof {
                            i = i + 1;
                        }
                    },
                }
            },
        }
    }
}

/// Drives the response stream for a command whose only outcome of interest
/// is its completion status: every frame before the completion is
/// unsolicited and forwarded, a success completion yields `Ok`, a failure
/// completion is a rejected handshake, and a source that ends or fails
/// before the completion aborts the collection.
pub fn collect_check_ok<S: ProtocolStream>(
    stream: &mut S,
    unsolicited: &mut UnsolicitedChannel,
    command_tag: u64,
) -> (r: Result<(), Error>)
    ensures
        ({
            let s = old(stream).frames();
            let n = stop_idx(s, command_tag);
            let pre = frames_of(s.take(n));
            &&& final(stream).lines() == old(stream).lines()
            &&& final(stream).inner_of() == old(stream).inner_of()
            &&& final(stream).frames() == s.skip(consumed_until_stop(s, command_tag))
            &&& final(unsolicited).queued() == old(unsolicited).queued() + pre
            &&& (if n == s.len() {
                r == Err::<(), Error>(Error::Protocol)
            } else {
                match s[n] {
                    Err(e) => r == Err::<(), Error>(e),
                    Ok(done) => {
                        if done matches ResponseFrame::Completion { success: true, .. } {
                            r == Ok::<(), Error>(())
                        } else {
                            r == Err::<(), Error>(Error::HandshakeRejected)
                        }
                    },
                }
            })
        }),
{
    let ghost s = stream.frames();
    let ghost chan0 = unsolicited.queued();
    let ghost mut i: int = 0;
    loop
        invariant
            0 <= i <= s.len(),
            stream.frames() == s.skip(i),
            stream.lines() == old(stream).lines(),
            stream.inner_of() == old(stream).inner_of(),
            forall|j: int| 0 <= j < i ==> !stops(s[j], command_tag),
            unsolicited.queued() == chan0 + frames_of(s.take(i)),
            chan0 == old(unsolicited).queued(),
            s == old(stream).frames(),
        decreases s.len() - i,
    {
        match stream.next_frame() {
            None => {
                proof {
                    assert(s.skip(i).len() == 0);
                    lemma_stop_idx_is_first(s, command_tag, i);
                }
                return Err(Error::Protocol);
            },
            Some(event) => {
                proof {
                    assert(s.skip(i)[0] == s[i]);
                    assert(s.skip(i).skip(1) =~= s.skip(i + 1));
                }
                match event {
                    Err(e) => {
                        proof {
                            lemma_stop_idx_is_first(s, command_tag, i);
                        }
                        return Err(e);
                    },
                    Ok(f) => {
                        let done = frame_completes(&f, command_tag);
                        if done {
                            proof {
                                lemma_stop_idx_is_first(s, command_tag, i);
                            }
                            return match f {
                                ResponseFrame::Completion { success: true, .. } => Ok(()),
                                _ => Err(Error::HandshakeRejected),
                            };
                        }
                        proof {
                            lemma_frames_of_snoc(s, i);
                        }
                        unsolicited.publish(f);
                        proof {
                            i = i + 1;
                        }
                    },
                }
            },
        }
    }
}

} // verus!
