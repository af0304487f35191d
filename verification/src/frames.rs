//! The frame model: one discrete server-to-client message, and the pure
//! per-extension classifiers that map a frame into a typed payload or
//! report that the frame is not theirs.

use vstd::prelude::*;

verus! {

/// A quota usage record: one resource of a quota root, its current usage
/// and its limit. Immutable once constructed from a frame.
pub struct Quota {
    pub resource: Vec<u8>,
    pub usage: u64,
    pub limit: u64,
}

/// A quota-root record: a mailbox name plus the ordered quota-root names
/// that apply to it. Immutable once constructed from a frame.
pub struct QuotaRoot {
    pub mailbox: Vec<u8>,
    pub roots: Vec<Vec<u8>>,
}

/// One server-to-client message, as handed over by the (out-of-scope)
/// tokenizer. Either tagged with the correlation tag of a command it
/// completes, or untagged payload or status data.
pub enum ResponseFrame {
    /// The completion of the command issued under `tag`.
    Completion { tag: u64, success: bool },
    /// An untagged quota usage record.
    Quota(Quota),
    /// An untagged quota-root record.
    QuotaRoot(QuotaRoot),
    /// Any other untagged informational or status frame, carried verbatim.
    Info(Vec<u8>),
}

/// Does `f` complete the command issued under `tag`?
pub open spec fn is_completion(f: ResponseFrame, tag: u64) -> bool {
    f matches ResponseFrame::Completion { tag: t, .. } && t == tag
}

/// Exec mirror of [`is_completion`].
pub fn frame_completes(f: &ResponseFrame, tag: u64) -> (r: bool)
    ensures
        r == is_completion(*f, tag),
{
    match f {
        ResponseFrame::Completion { tag: t, .. } => *t == tag,
        _ => false,
    }
}

/// Did `f` complete `tag` with a success status?
pub open spec fn completes_ok(f: ResponseFrame, tag: u64) -> bool {
    f matches ResponseFrame::Completion { tag: t, success } && t == tag && success
}

/// What the single-result quota classifier makes of one frame.
pub enum QuotaClass {
    /// The frame is a quota usage record: the extracted payload.
    Usage(Quota),
    /// Not this extension's frame; handed back to be forwarded unchanged.
    Pass(ResponseFrame),
}

/// Classifier for a quota lookup: a quota usage frame becomes the typed
/// payload, every other frame is not this extension's and is handed back
/// untouched.
pub fn classify_quota(f: ResponseFrame) -> (r: QuotaClass)
    ensures
        f matches ResponseFrame::Quota(q) ==> r == QuotaClass::Usage(q),
        !(f matches ResponseFrame::Quota(_)) ==> r == QuotaClass::Pass(f),
{
    match f {
        ResponseFrame::Quota(q) => QuotaClass::Usage(q),
        other => QuotaClass::Pass(other),
    }
}

/// What the multi-result quota-root classifier makes of one frame.
pub enum QuotaRootClass {
    /// A quota-root record: the extracted mapping payload.
    Root(QuotaRoot),
    /// A quota usage record associated with one of the roots.
    Usage(Quota),
    /// Not this extension's frame; handed back to be forwarded unchanged.
    Pass(ResponseFrame),
}

/// Classifier for a quota-root query: both quota-root mappings and quota
/// usage records are this extension's payload; everything else is handed
/// back untouched.
pub fn classify_quota_root(f: ResponseFrame) -> (r: QuotaRootClass)
    ensures
        f matches ResponseFrame::QuotaRoot(qr) ==> r == QuotaRootClass::Root(qr),
        f matches ResponseFrame::Quota(q) ==> r == QuotaRootClass::Usage(q),
        !(f matches ResponseFrame::Quota(_)) && !(f matches ResponseFrame::QuotaRoot(_))
            ==> r == QuotaRootClass::Pass(f),
{
    match f {
        ResponseFrame::QuotaRoot(qr) => QuotaRootClass::Root(qr),
        ResponseFrame::Quota(q) => QuotaRootClass::Usage(q),
        other => QuotaRootClass::Pass(other),
    }
}

} // verus!
