use imap_ext::mail::{
    extract_attachments, find_sub, get_filename, is_image_content_type, trim_ends, EmailAttachment,
    MailPart,
};

fn v(s: &[u8]) -> Vec<u8> {
    s.to_vec()
}

#[test]
fn find_sub_first_occurrence() {
    assert_eq!(find_sub(b"abcabc", b"ca"), Some(2));
    assert_eq!(find_sub(b"abcabc", b"abc"), Some(0));
    assert_eq!(find_sub(b"abc", b"x"), None);
    assert_eq!(find_sub(b"ab", b"abc"), None);
    assert_eq!(find_sub(b"", b"a"), None);
}

#[test]
fn trim_ends_strips_all_edge_quotes() {
    assert_eq!(trim_ends(b"\"\"photo.jpg\"", b'"', b'"'), v(b"photo.jpg"));
    assert_eq!(trim_ends(b"plain", b'"', b'"'), v(b"plain"));
    assert_eq!(trim_ends(b"\"\"\"", b'"', b'"'), v(b""));
    assert_eq!(trim_ends(b"<id@host>", b'<', b'>'), v(b"id@host"));
}

#[test]
fn filename_from_content_type_name() {
    let ct = v(b"image/jpeg; name=\"photo.jpg\"");
    let r = get_filename(Some(&ct), None, None);
    assert_eq!(r, Some(v(b"photo.jpg")));
}

#[test]
fn filename_segment_ends_at_next_marker() {
    // A split on the marker takes the field between the first marker and
    // the next one, not the whole rest.
    let ct = v(b"a name=x name=y");
    let r = get_filename(Some(&ct), None, None);
    assert_eq!(r, Some(v(b"x ")));
}

#[test]
fn filename_from_content_disposition() {
    let cd = v(b"attachment; filename=\"pic.png\"");
    let r = get_filename(None, Some(&cd), None);
    assert_eq!(r, Some(v(b"pic.png")));
}

#[test]
fn filename_from_content_id() {
    let cid = v(b"<part17@mailer>");
    let r = get_filename(None, None, Some(&cid));
    assert_eq!(r, Some(v(b"image_part17@mailer.jpg")));
}

#[test]
fn filename_precedence_and_absence() {
    let ct = v(b"image/png; name=\"a.png\"");
    let cd = v(b"attachment; filename=\"b.png\"");
    let cid = v(b"<c>");
    assert_eq!(get_filename(Some(&ct), Some(&cd), Some(&cid)), Some(v(b"a.png")));
    let ct_plain = v(b"image/png");
    assert_eq!(get_filename(Some(&ct_plain), Some(&cd), Some(&cid)), Some(v(b"b.png")));
    assert_eq!(get_filename(None, None, None), None);
}

#[test]
fn image_content_types() {
    assert!(is_image_content_type(b"IMAGE/PNG"));
    assert!(is_image_content_type(b"image/jpeg; name=x"));
    assert!(is_image_content_type(b"application/jpeg"));
    assert!(!is_image_content_type(b"text/plain"));
    assert!(!is_image_content_type(b"application/pdf"));
}

#[test]
fn extract_attachments_takes_named_image_parts_in_order() {
    let parts = vec![
        MailPart {
            content_type: Some(v(b"text/plain")),
            content_disposition: None,
            content_id: None,
            body: v(b"hello"),
        },
        MailPart {
            content_type: Some(v(b"image/jpeg; name=\"one.jpg\"")),
            content_disposition: None,
            content_id: None,
            body: v(b"AAAA"),
        },
        MailPart {
            content_type: Some(v(b"image/png")),
            content_disposition: Some(v(b"attachment; filename=\"two.png\"")),
            content_id: None,
            body: v(b"BBBB"),
        },
        MailPart {
            content_type: Some(v(b"image/gif")),
            content_disposition: None,
            content_id: None,
            body: v(b"no name, skipped"),
        },
    ];
    let got: Vec<EmailAttachment> = extract_attachments(&parts);
    assert_eq!(got.len(), 2);
    assert_eq!(got[0].filename, v(b"one.jpg"));
    assert_eq!(got[0].data, v(b"AAAA"));
    assert_eq!(got[1].filename, v(b"two.png"));
    assert_eq!(got[1].data, v(b"BBBB"));
}
