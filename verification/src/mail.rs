//! The attachment-selection rules of the downloader: which MIME parts are
//! image attachments, and under what file name each is saved. The header
//! values are plain byte strings here; pulling them out of a parsed message
//! is the caller's concern.

use vstd::prelude::*;

verus! {

/// Does `needle` occur in `hay` starting at `i`?
pub open spec fn match_at(hay: Seq<u8>, needle: Seq<u8>, i: int) -> bool {
    &&& 0 <= i
    &&& i + needle.len() <= hay.len()
    &&& hay.subrange(i, i + needle.len() as int) == needle
}

/// The first index at which `needle` occurs in `hay`; `hay.len()` if it
/// does not occur at all (for a non-empty needle).
pub open spec fn first_match(hay: Seq<u8>, needle: Seq<u8>) -> int
    decreases hay.len(),
{
    if match_at(hay, needle, 0) {
        0
    } else if hay.len() == 0 {
        0
    } else {
        1 + first_match(hay.skip(1), needle)
    }
}

/// Does `needle` occur anywhere in `hay`?
pub open spec fn contains_marker(hay: Seq<u8>, needle: Seq<u8>) -> bool {
    first_match(hay, needle) < hay.len()
}

proof fn lemma_match_shift(hay: Seq<u8>, needle: Seq<u8>, j: int)
    requires
        hay.len() > 0,
        0 <= j,
    ensures
        match_at(hay, needle, j + 1) == match_at(hay.skip(1), needle, j),
{
    if j + 1 + needle.len() <= hay.len() {
        assert(hay.skip(1).subrange(j, j + needle.len() as int) =~= hay.subrange(
            j + 1,
            j + 1 + needle.len(),
        ));
    }
}

proof fn lemma_first_match_is(hay: Seq<u8>, needle: Seq<u8>, i: int)
    requires
        needle.len() > 0,
        0 <= i <= hay.len(),
        forall|j: int| 0 <= j < i ==> !match_at(hay, needle, j),
        i < hay.len() ==> match_at(hay, needle, i),
        i == hay.len() ==> forall|j: int| !match_at(hay, needle, j),
    ensures
        first_match(hay, needle) == i,
    decreases i,
{
    if i == 0 {
        if hay.len() != 0 && !match_at(hay, needle, 0) {
            assert(forall|j: int| 0 <= j ==> !match_at(hay.skip(1), needle, j)) by {
                assert forall|j: int| 0 <= j implies !match_at(hay.skip(1), needle, j) by {
                    lemma_match_shift(hay, needle, j);
                }
            }
            lemma_first_match_is(hay.skip(1), needle, 0);
            assert(hay.skip(1).len() == 0);
        }
    } else {
        assert(!match_at(hay, needle, 0));
        assert forall|j: int| 0 <= j < i - 1 implies !match_at(hay.skip(1), needle, j) by {
            lemma_match_shift(hay, needle, j);
        }
        if i < hay.len() {
            lemma_match_shift(hay, needle, i - 1);
        } else {
            assert forall|j: int| 0 <= j implies !match_at(hay.skip(1), needle, j) by {
                lemma_match_shift(hay, needle, j);
            }
        }
        lemma_first_match_is(hay.skip(1), needle, i - 1);
    }
}

/// Finds the first occurrence of `needle` in `hay`.
pub fn find_sub(hay: &[u8], needle: &[u8]) -> (r: Option<usize>)
    requires
        needle@.len() > 0,
    ensures
        r matches Some(i) ==> i == first_match(hay@, needle@) && contains_marker(hay@, needle@),
        r is None ==> !contains_marker(hay@, needle@) && first_match(hay@, needle@)
            == hay@.len(),
{
    if needle.len() > hay.len() {
        proof {
            lemma_first_match_is(hay@, needle@, hay@.len() as int);
        }
        return None;
    }
    let last_start = hay.len() - needle.len();
    let mut i: usize = 0;
    proof {
        assert(hay@.len() <= usize::MAX);
    }
    while i <= last_start
        invariant
            needle@.len() > 0,
            needle@.len() <= hay@.len(),
            hay@.len() <= usize::MAX,
            last_start == hay@.len() - needle@.len(),
            0 <= i <= last_start + 1,
            forall|j: int| 0 <= j < i ==> !match_at(hay@, needle@, j),
        decreases last_start + 1 - i,
    {
        let mut k: usize = 0;
        let mut matched = true;
        while k < needle.len()
            invariant
                needle@.len() <= hay@.len(),
                hay@.len() <= usize::MAX,
                i + needle@.len() <= hay@.len(),
                0 <= k <= needle@.len(),
                matched ==> forall|m: int| 0 <= m < k ==> hay@[i + m] == needle@[m],
                !matched ==> !match_at(hay@, needle@, i as int),
            decreases needle@.len() - k,
        {
            if hay[i + k] != needle[k] {
                proof {
                    assert(hay@.subrange(i as int, i + needle@.len()) != needle@) by {
                        assert(hay@.subrange(i as int, i + needle@.len())[k as int] == hay@[i
                            + k]);
                    }
                }
                matched = false;
            }
            k = k + 1;
        }
        if matched {
            proof {
                assert(hay@.subrange(i as int, i + needle@.len()) =~= needle@);
                lemma_first_match_is(hay@, needle@, i as int);
            }
            return Some(i);
        }
        i = i + 1;
    }
    proof {
        assert forall|j: int| !match_at(hay@, needle@, j) by {
            if 0 <= j && j + needle@.len() <= hay@.len() {
                assert(j < i);
            }
        }
        lemma_first_match_is(hay@, needle@, hay@.len() as int);
    }
    None
}

/// `s` with every leading byte equal to `c1` or `c2` removed.
pub open spec fn trim_lead(s: Seq<u8>, c1: u8, c2: u8) -> Seq<u8>
    decreases s.len(),
{
    if s.len() > 0 && (s[0] == c1 || s[0] == c2) {
        trim_lead(s.skip(1), c1, c2)
    } else {
        s
    }
}

/// `s` with every trailing byte equal to `c1` or `c2` removed.
pub open spec fn trim_trail(s: Seq<u8>, c1: u8, c2: u8) -> Seq<u8>
    decreases s.len(),
{
    if s.len() > 0 && (s.last() == c1 || s.last() == c2) {
        trim_trail(s.drop_last(), c1, c2)
    } else {
        s
    }
}

/// `s` with every leading and trailing byte equal to `c1` or `c2` removed.
pub open spec fn trim_ends_spec(s: Seq<u8>, c1: u8, c2: u8) -> Seq<u8> {
    trim_trail(trim_lead(s, c1, c2), c1, c2)
}

/// Strips all leading and trailing occurrences of the two bytes.
pub fn trim_ends(s: &[u8], c1: u8, c2: u8) -> (v: Vec<u8>)
    ensures
        v@ == trim_ends_spec(s@, c1, c2),
{
    let mut lo: usize = 0;
    proof {
        assert(s@.skip(0) =~= s@);
    }
    while lo < s.len() && (s[lo] == c1 || s[lo] == c2)
        invariant
            0 <= lo <= s@.len(),
            trim_lead(s@, c1, c2) == trim_lead(s@.skip(lo as int), c1, c2),
        decreases s@.len() - lo,
    {
        lo = lo + 1;
        proof {
            assert(s@.skip(lo - 1).skip(1) =~= s@.skip(lo as int));
        }
    }
    proof {
        assert(trim_lead(s@, c1, c2) == s@.skip(lo as int));
    }
    let mut hi: usize = s.len();
    while hi > lo && (s[hi - 1] == c1 || s[hi - 1] == c2)
        invariant
            lo <= hi <= s@.len(),
            trim_trail(s@.skip(lo as int), c1, c2) == trim_trail(
                s@.subrange(lo as int, hi as int),
                c1,
                c2,
            ),
        decreases hi,
    {
        hi = hi - 1;
        proof {
            assert(s@.subrange(lo as int, hi + 1).drop_last() =~= s@.subrange(
                lo as int,
                hi as int,
            ));
            assert(s@.subrange(lo as int, hi + 1).last() == s@[hi as int]);
        }
    }
    proof {
        assert(trim_trail(s@.subrange(lo as int, hi as int), c1, c2) == s@.subrange(
            lo as int,
            hi as int,
        ));
    }
    let mut v: Vec<u8> = Vec::new();
    let mut j: usize = lo;
    while j < hi
        invariant
            lo <= j <= hi <= s@.len(),
            v@ == s@.subrange(lo as int, j as int),
        decreases hi - j,
    {
        v.push(s[j]);
        j = j + 1;
        proof {
            assert(s@.subrange(lo as int, j as int) =~= s@.subrange(lo as int, j - 1).push(
                s@[j - 1],
            ));
        }
    }
    v
}

/// The bytes after the first occurrence of `marker`, up to its next
/// occurrence or the end: the second field of a split on the marker.
pub open spec fn segment_after(value: Seq<u8>, marker: Seq<u8>) -> Seq<u8> {
    let rest = value.subrange(first_match(value, marker) + marker.len(), value.len() as int);
    rest.take(first_match(rest, marker))
}

/// Extracts the split segment after the first `marker` in `value`, if the
/// marker occurs at all.
pub fn extract_after(value: &[u8], marker: &[u8]) -> (r: Option<Vec<u8>>)
    requires
        marker@.len() > 0,
    ensures
        contains_marker(value@, marker@) ==> (r matches Some(v) && v@ == segment_after(
            value@,
            marker@,
        )),
        !contains_marker(value@, marker@) ==> r is None,
{
    let idx = match find_sub(value, marker) {
        Some(i) => i,
        None => {
            return None;
        },
    };
    proof {
        lemma_first_match_bound(value@, marker@);
    }
    let value_len = value.len();
    proof {
        assert(idx + marker@.len() <= value_len);
    }
    let start = idx + marker.len();
    let mut rest: Vec<u8> = Vec::new();
    let mut j: usize = start;
    while j < value.len()
        invariant
            start <= j <= value@.len(),
            rest@ == value@.subrange(start as int, j as int),
        decreases value@.len() - j,
    {
        rest.push(value[j]);
        j = j + 1;
        proof {
            assert(value@.subrange(start as int, j as int) =~= value@.subrange(
                start as int,
                j - 1,
            ).push(value@[j - 1]));
        }
    }
    let end = match find_sub(rest.as_slice(), marker) {
        Some(i) => i,
        None => rest.len(),
    };
    let mut seg: Vec<u8> = Vec::new();
    let mut k: usize = 0;
    while k < end
        invariant
            0 <= k <= end <= rest@.len(),
            seg@ == rest@.subrange(0, k as int),
        decreases end - k,
    {
        seg.push(rest[k]);
        k = k + 1;
        proof {
            assert(rest@.subrange(0, k as int) =~= rest@.subrange(0, k - 1).push(rest@[k - 1]));
        }
    }
    proof {
        assert(seg@ =~= rest@.take(first_match(rest@, marker@)));
    }
    Some(seg)
}

/// The first occurrence index leaves room for the needle itself.
pub proof fn lemma_first_match_bound(hay: Seq<u8>, needle: Seq<u8>)
    requires
        contains_marker(hay, needle),
        needle.len() > 0,
    ensures
        first_match(hay, needle) + needle.len() <= hay.len(),
        match_at(hay, needle, first_match(hay, needle)),
    decreases hay.len(),
{
    if !match_at(hay, needle, 0) && hay.len() > 0 {
        lemma_first_match_bound(hay.skip(1), needle);
        lemma_match_shift(hay, needle, first_match(hay.skip(1), needle));
    }
}

/// The byte `b` with an ASCII capital letter mapped to its small form.
pub open spec fn lower_byte(b: u8) -> u8 {
    if 65 <= b && b <= 90 {
        (b + 32) as u8
    } else {
        b
    }
}

/// `s` with every ASCII capital letter mapped to its small form.
pub open spec fn ascii_lower(s: Seq<u8>) -> Seq<u8> {
    s.map_values(|b: u8| lower_byte(b))
}

/// Maps ASCII capital letters to their small forms, byte by byte.
pub fn to_ascii_lower(s: &[u8]) -> (v: Vec<u8>)
    ensures
        v@ == ascii_lower(s@),
{
    let mut v: Vec<u8> = Vec::new();
    let mut j: usize = 0;
    while j < s.len()
        invariant
            0 <= j <= s@.len(),
            v@ == ascii_lower(s@.take(j as int)),
        decreases s@.len() - j,
    {
        let b = s[j];
        if 65 <= b && b <= 90 {
            v.push(b + 32);
        } else {
            v.push(b);
        }
        j = j + 1;
        proof {
            assert(v@ =~= ascii_lower(s@.take(j as int)));
        }
    }
    proof {
        assert(s@.take(s@.len() as int) =~= s@);
    }
    v
}

/// The `name=` marker looked for in a content-type header value.
pub open spec fn name_marker() -> Seq<u8> {
    seq![110u8, 97u8, 109u8, 101u8, 61u8]
}

/// The `filename=` marker looked for in a content-disposition header value.
pub open spec fn filename_marker() -> Seq<u8> {
    seq![102u8, 105u8, 108u8, 101u8, 110u8, 97u8, 109u8, 101u8, 61u8]
}

/// The `image/` marker of an image media type.
pub open spec fn image_marker() -> Seq<u8> {
    seq![105u8, 109u8, 97u8, 103u8, 101u8, 47u8]
}

/// The `/jpeg` subtype marker.
pub open spec fn jpeg_marker() -> Seq<u8> {
    seq![47u8, 106u8, 112u8, 101u8, 103u8]
}

/// The `/jpg` subtype marker.
pub open spec fn jpg_marker() -> Seq<u8> {
    seq![47u8, 106u8, 112u8, 103u8]
}

/// Is this content-type header value an image type? The comparison is on
/// the ASCII-lowered value, as header values are case-insensitive.
pub open spec fn is_image_type(ct: Seq<u8>) -> bool {
    let low = ascii_lower(ct);
    contains_marker(low, image_marker()) || contains_marker(low, jpeg_marker())
        || contains_marker(low, jpg_marker())
}

/// Decides whether a content-type header value names an image.
pub fn is_image_content_type(ct: &[u8]) -> (r: bool)
    ensures
        r == is_image_type(ct@),
{
    let low = to_ascii_lower(ct);
    let image: Vec<u8> = vec![105u8, 109u8, 97u8, 103u8, 101u8, 47u8];
    let jpeg: Vec<u8> = vec![47u8, 106u8, 112u8, 101u8, 103u8];
    let jpg: Vec<u8> = vec![47u8, 106u8, 112u8, 103u8];
    proof {
        assert(image@ =~= image_marker());
        assert(jpeg@ =~= jpeg_marker());
        assert(jpg@ =~= jpg_marker());
    }
    if find_sub(low.as_slice(), image.as_slice()).is_some() {
        return true;
    }
    if find_sub(low.as_slice(), jpeg.as_slice()).is_some() {
        return true;
    }
    find_sub(low.as_slice(), jpg.as_slice()).is_some()
}

/// The file name under which a part is saved, from its header values:
/// the quoted name after `name=` in the content-type if there is one, else
/// the quoted name after `filename=` in the content-disposition, else a
/// name derived from the content-id with its angle brackets stripped, else
/// none.
pub open spec fn filename_spec(
    ct: Option<Seq<u8>>,
    cd: Option<Seq<u8>>,
    cid: Option<Seq<u8>>,
) -> Option<Seq<u8>> {
    match ct {
        Some(v) => {
            if contains_marker(v, name_marker()) {
                Some(trim_ends_spec(segment_after(v, name_marker()), 34, 34))
            } else {
                filename_fallback(cd, cid)
            }
        },
        None => filename_fallback(cd, cid),
    }
}

/// The file name when the content-type gives none: from the
/// content-disposition, else from the content-id.
pub open spec fn filename_fallback(cd: Option<Seq<u8>>, cid: Option<Seq<u8>>) -> Option<
    Seq<u8>,
> {
    match cd {
        Some(v) => {
            if contains_marker(v, filename_marker()) {
                Some(trim_ends_spec(segment_after(v, filename_marker()), 34, 34))
            } else {
                filename_from_id(cid)
            }
        },
        None => filename_from_id(cid),
    }
}

/// The file name derived from a content-id header value, if one is there.
pub open spec fn filename_from_id(cid: Option<Seq<u8>>) -> Option<Seq<u8>> {
    match cid {
        Some(v) => Some(image_prefix() + trim_ends_spec(v, 60, 62) + jpg_suffix()),
        None => None,
    }
}

/// The `image_` prefix of a name derived from a content-id.
pub open spec fn image_prefix() -> Seq<u8> {
    seq![105u8, 109u8, 97u8, 103u8, 101u8, 95u8]
}

/// The `.jpg` suffix of a name derived from a content-id.
pub open spec fn jpg_suffix() -> Seq<u8> {
    seq![46u8, 106u8, 112u8, 103u8]
}

/// Derives the file name of one part from its content-type,
/// content-disposition and content-id header values, trying them in that
/// order.
pub fn get_filename(
    content_type: Option<&Vec<u8>>,
    content_disposition: Option<&Vec<u8>>,
    content_id: Option<&Vec<u8>>,
) -> (r: Option<Vec<u8>>)
    ensures
        ({
            let spec_r = filename_spec(
                match content_type {
                    Some(v) => Some(v@),
                    None => None,
                },
                match content_disposition {
                    Some(v) => Some(v@),
                    None => None,
                },
                match content_id {
                    Some(v) => Some(v@),
                    None => None,
                },
            );
            &&& (r is Some <==> spec_r is Some)
            &&& (r matches Some(v) ==> spec_r matches Some(sv) && v@ == sv)
        }),
{
    let name: Vec<u8> = vec![110u8, 97u8, 109u8, 101u8, 61u8];
    proof {
        assert(name@ =~= name_marker());
    }
    if let Some(ct) = content_type {
        if let Some(seg) = extract_after(ct.as_slice(), name.as_slice()) {
            return Some(trim_ends(seg.as_slice(), 34, 34));
        }
    }
    let fname: Vec<u8> = vec![102u8, 105u8, 108u8, 101u8, 110u8, 97u8, 109u8, 101u8, 61u8];
    proof {
        assert(fname@ =~= filename_marker());
    }
    if let Some(cd) = content_disposition {
        if let Some(seg) = extract_after(cd.as_slice(), fname.as_slice()) {
            return Some(trim_ends(seg.as_slice(), 34, 34));
        }
    }
    if let Some(cid) = content_id {
        let trimmed = trim_ends(cid.as_slice(), 60, 62);
        let mut out: Vec<u8> = vec![105u8, 109u8, 97u8, 103u8, 101u8, 95u8];
        out.extend_from_slice(trimmed.as_slice());
        out.push(46);
        out.push(106);
        out.push(112);
        out.push(103);
        proof {
            assert(out@ =~= image_prefix() + trim_ends_spec(cid@, 60, 62) + jpg_suffix());
        }
        return Some(out);
    }
    None
}

/// One MIME part, reduced to what the attachment rules read: three header
/// values and the decoded body.
pub struct MailPart {
    pub content_type: Option<Vec<u8>>,
    pub content_disposition: Option<Vec<u8>>,
    pub content_id: Option<Vec<u8>>,
    pub body: Vec<u8>,
}

/// An attachment worth saving: its file name and its bytes.
pub struct EmailAttachment {
    pub filename: Vec<u8>,
    pub data: Vec<u8>,
}

/// The attachment one part yields, if it is an image part with a name.
pub open spec fn attachment_spec(p: MailPart) -> Option<(Seq<u8>, Seq<u8>)> {
    if p.content_type matches Some(ct) && is_image_type(ct@) {
        match filename_spec(
            match p.content_type {
                Some(v) => Some(v@),
                None => None,
            },
            match p.content_disposition {
                Some(v) => Some(v@),
                None => None,
            },
            match p.content_id {
                Some(v) => Some(v@),
                None => None,
            },
        ) {
            Some(name) => Some((name, p.body@)),
            None => None,
        }
    } else {
        None
    }
}

/// The attachments of a part sequence, in part order.
pub open spec fn attachments_spec(parts: Seq<MailPart>) -> Seq<(Seq<u8>, Seq<u8>)>
    decreases parts.len(),
{
    if parts.len() == 0 {
        Seq::empty()
    } else {
        let rest = attachments_spec(parts.drop_last());
        match attachment_spec(parts.last()) {
            Some(a) => rest.push(a),
            None => rest,
        }
    }
}

fn copy_bytes(s: &[u8]) -> (v: Vec<u8>)
    ensures
        v@ == s@,
{
    let mut v: Vec<u8> = Vec::new();
    v.extend_from_slice(s);
    proof {
        assert(v@ =~= s@);
    }
    v
}

/// Collects the image attachments of the parts of one message, in part
/// order: each part whose content-type is an image type and for which a
/// file name can be derived contributes its body under that name.
pub fn extract_attachments(parts: &Vec<MailPart>) -> (r: Vec<EmailAttachment>)
    ensures
        r@.map_values(|a: EmailAttachment| (a.filename@, a.data@)) == attachments_spec(parts@),
{
    let mut out: Vec<EmailAttachment> = Vec::new();
    let mut i: usize = 0;
    proof {
        assert(parts@.take(0) =~= Seq::<MailPart>::empty());
    }
    while i < parts.len()
        invariant
            0 <= i <= parts@.len(),
            out@.map_values(|a: EmailAttachment| (a.filename@, a.data@)) == attachments_spec(
                parts@.take(i as int),
            ),
        decreases parts@.len() - i,
    {
        let part = &parts[i];
        let is_image = match &part.content_type {
            Some(ct) => is_image_content_type(ct.as_slice()),
            None => false,
        };
        if is_image {
            let filename = get_filename(
                part.content_type.as_ref(),
                part.content_disposition.as_ref(),
                part.content_id.as_ref(),
            );
            if let Some(name) = filename {
                out.push(EmailAttachment { filename: name, data: copy_bytes(part.body.as_slice()) });
            }
        }
        i = i + 1;
        proof {
            assert(parts@.take(i as int).drop_last() =~= parts@.take(i - 1));
            assert(parts@.take(i as int).last() == parts@[i - 1]);
            assert(out@.map_values(|a: EmailAttachment| (a.filename@, a.data@))
                =~= attachments_spec(parts@.take(i as int)));
        }
    }
    proof {
        assert(parts@.take(parts@.len() as int) =~= parts@);
    }
    out
}

} // verus!
