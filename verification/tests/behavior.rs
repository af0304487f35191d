use imap_ext::channel::UnsolicitedChannel;
use imap_ext::collect::{collect_check_ok, parse_get_quota, parse_get_quota_root};
use imap_ext::deflate::deflate_round_trip;
use imap_ext::errors::Error;
use imap_ext::frames::{Quota, QuotaRoot, ResponseFrame};
use imap_ext::protocol::{MemProtocolStream, ProtocolStream};
use imap_ext::session::{format_command_line, Session};
use imap_ext::stream::DeflateStream;
use imap_ext::transport::MemTransport;

fn quota(resource: &[u8], usage: u64, limit: u64) -> Quota {
    Quota { resource: resource.to_vec(), usage, limit }
}

fn quota_root(mailbox: &[u8], roots: &[&[u8]]) -> QuotaRoot {
    QuotaRoot { mailbox: mailbox.to_vec(), roots: roots.iter().map(|r| r.to_vec()).collect() }
}

fn stream_of(frames: Vec<Result<ResponseFrame, Error>>) -> MemProtocolStream {
    MemProtocolStream::new(frames, MemTransport::new(Vec::new()))
}

#[test]
fn round_trip_simple() {
    let data = b"Hello World".to_vec();
    assert_eq!(deflate_round_trip(&data), data);
}

#[test]
fn round_trip_empty() {
    let data: Vec<u8> = Vec::new();
    assert_eq!(deflate_round_trip(&data), data);
}

#[test]
fn round_trip_large() {
    let mut data = Vec::new();
    for i in 0..50000u32 {
        data.push((i % 251) as u8);
    }
    assert_eq!(deflate_round_trip(&data), data);
}

#[test]
fn stream_pair_round_trip_across_flush() {
    // Writer side: plaintext goes in, compressed bytes land on the transport.
    let mut writer = DeflateStream::new(MemTransport::new(Vec::new()));
    let text = b"a1 OK completed\r\na2 BAD oops\r\n".repeat(100);
    let n = writer.write(&text).unwrap();
    assert_eq!(n, text.len());
    writer.flush().unwrap();
    let wire = writer.into_inner().take_sent();
    // The wire is really compressed: different from and shorter than the text.
    assert_ne!(wire, text);
    assert!(wire.len() < text.len());
    // Reader side: a peer decoder fed only the flushed wire recovers all of
    // it without waiting for more input.
    let mut reader = DeflateStream::new(MemTransport::new(wire));
    let back = reader.read_to_end().unwrap();
    assert_eq!(back, text);
}

#[test]
fn stream_read_in_small_pieces() {
    let mut writer = DeflateStream::new(MemTransport::new(Vec::new()));
    let text = b"0123456789".to_vec();
    writer.write(&text).unwrap();
    writer.flush().unwrap();
    let wire = writer.into_inner().take_sent();
    let mut reader = DeflateStream::new(MemTransport::new(wire));
    let mut got = Vec::new();
    loop {
        let piece = reader.read(3).unwrap();
        if piece.is_empty() && got.len() == text.len() {
            break;
        }
        assert!(piece.len() <= 3);
        got.extend_from_slice(&piece);
    }
    assert_eq!(got, text);
}

#[test]
fn corrupt_wire_is_an_error_not_eof() {
    let mut reader = DeflateStream::new(MemTransport::new(vec![0xff; 64]));
    let r = reader.read_to_end();
    assert_eq!(r, Err(Error::Compression));
}

#[test]
fn quota_lookup_scenario() {
    // Command tag 5 requests a quota lookup; the quota record and an
    // unrelated OK arrive before the tagged completion.
    let frames = vec![
        Ok(ResponseFrame::Quota(quota(b"STORAGE", 10, 100))),
        Ok(ResponseFrame::Info(b"OK untagged".to_vec())),
        Ok(ResponseFrame::Completion { tag: 5, success: true }),
    ];
    let mut src = stream_of(frames);
    let mut chan = UnsolicitedChannel::new();
    let q = parse_get_quota(&mut src, &mut chan, 5).unwrap();
    assert_eq!(q.resource, b"STORAGE".to_vec());
    assert_eq!(q.usage, 10);
    assert_eq!(q.limit, 100);
    // The unrelated frame went to the side channel.
    match chan.try_next() {
        Some(ResponseFrame::Info(text)) => assert_eq!(text, b"OK untagged".to_vec()),
        other => panic!("expected the info frame, got {:?}", other.is_some()),
    }
    assert!(chan.try_next().is_none());
}

#[test]
fn quota_lookup_missing_response() {
    let frames = vec![
        Ok(ResponseFrame::Info(b"nothing relevant".to_vec())),
        Ok(ResponseFrame::Completion { tag: 9, success: true }),
    ];
    let mut src = stream_of(frames);
    let mut chan = UnsolicitedChannel::new();
    let r = parse_get_quota(&mut src, &mut chan, 9);
    assert_eq!(r.err(), Some(Error::MissingResponse));
}

#[test]
fn quota_lookup_keeps_last_record() {
    let frames = vec![
        Ok(ResponseFrame::Quota(quota(b"STORAGE", 1, 100))),
        Ok(ResponseFrame::Quota(quota(b"STORAGE", 2, 100))),
        Ok(ResponseFrame::Completion { tag: 1, success: true }),
    ];
    let mut src = stream_of(frames);
    let mut chan = UnsolicitedChannel::new();
    let q = parse_get_quota(&mut src, &mut chan, 1).unwrap();
    assert_eq!(q.usage, 2);
}

#[test]
fn quota_root_scenario() {
    // Command tag 7 requests quota roots for INBOX.
    let frames = vec![
        Ok(ResponseFrame::QuotaRoot(quota_root(b"INBOX", &[b"root1"]))),
        Ok(ResponseFrame::Quota(quota(b"root1", 3, 50))),
        Ok(ResponseFrame::Completion { tag: 7, success: true }),
    ];
    let mut src = stream_of(frames);
    let mut chan = UnsolicitedChannel::new();
    let (roots, quotas) = parse_get_quota_root(&mut src, &mut chan, 7).unwrap();
    assert_eq!(roots.len(), 1);
    assert_eq!(roots[0].mailbox, b"INBOX".to_vec());
    assert_eq!(roots[0].roots, vec![b"root1".to_vec()]);
    assert_eq!(quotas.len(), 1);
    assert_eq!(quotas[0].resource, b"root1".to_vec());
    assert_eq!(quotas[0].usage, 3);
    assert_eq!(quotas[0].limit, 50);
    assert!(chan.try_next().is_none());
}

#[test]
fn quota_root_empty_results_are_ok() {
    let frames = vec![Ok(ResponseFrame::Completion { tag: 3, success: true })];
    let mut src = stream_of(frames);
    let mut chan = UnsolicitedChannel::new();
    let (roots, quotas) = parse_get_quota_root(&mut src, &mut chan, 3).unwrap();
    assert!(roots.is_empty());
    assert!(quotas.is_empty());
}

#[test]
fn collector_stops_at_completion_and_no_further() {
    let frames = vec![
        Ok(ResponseFrame::Info(b"before".to_vec())),
        Ok(ResponseFrame::Completion { tag: 1, success: true }),
        Ok(ResponseFrame::Info(b"after".to_vec())),
    ];
    let mut src = stream_of(frames);
    let mut chan = UnsolicitedChannel::new();
    collect_check_ok(&mut src, &mut chan, 1).unwrap();
    // The frame after the completion is still in the source, unread.
    match src.next_frame() {
        Some(Ok(ResponseFrame::Info(text))) => assert_eq!(text, b"after".to_vec()),
        _ => panic!("the frame after the completion must not have been consumed"),
    }
    // Only the frame before the completion was forwarded; the completion
    // frame itself went nowhere.
    assert!(matches!(chan.try_next(), Some(ResponseFrame::Info(_))));
    assert!(chan.try_next().is_none());
}

#[test]
fn completion_for_another_tag_is_unsolicited() {
    let frames = vec![
        Ok(ResponseFrame::Completion { tag: 8, success: true }),
        Ok(ResponseFrame::Completion { tag: 2, success: true }),
    ];
    let mut src = stream_of(frames);
    let mut chan = UnsolicitedChannel::new();
    collect_check_ok(&mut src, &mut chan, 2).unwrap();
    match chan.try_next() {
        Some(ResponseFrame::Completion { tag, success }) => {
            assert_eq!(tag, 8);
            assert!(success);
        },
        _ => panic!("the other command's completion must be forwarded"),
    }
}

#[test]
fn unsolicited_frames_keep_arrival_order() {
    let frames = vec![
        Ok(ResponseFrame::Info(b"first".to_vec())),
        Ok(ResponseFrame::Quota(quota(b"STORAGE", 1, 2))),
        Ok(ResponseFrame::Info(b"second".to_vec())),
        Ok(ResponseFrame::QuotaRoot(quota_root(b"INBOX", &[]))),
        Ok(ResponseFrame::Completion { tag: 4, success: true }),
    ];
    let mut src = stream_of(frames);
    let mut chan = UnsolicitedChannel::new();
    parse_get_quota(&mut src, &mut chan, 4).unwrap();
    // The quota record was claimed; everything else arrives in order.
    match chan.try_next() {
        Some(ResponseFrame::Info(t)) => assert_eq!(t, b"first".to_vec()),
        _ => panic!("first unsolicited frame missing"),
    }
    match chan.try_next() {
        Some(ResponseFrame::Info(t)) => assert_eq!(t, b"second".to_vec()),
        _ => panic!("second unsolicited frame missing"),
    }
    assert!(matches!(chan.try_next(), Some(ResponseFrame::QuotaRoot(_))));
    assert!(chan.try_next().is_none());
}

#[test]
fn source_failure_aborts_collection() {
    let frames = vec![
        Ok(ResponseFrame::Info(b"x".to_vec())),
        Err(Error::Transport),
        Ok(ResponseFrame::Completion { tag: 1, success: true }),
    ];
    let mut src = stream_of(frames);
    let mut chan = UnsolicitedChannel::new();
    let r = parse_get_quota(&mut src, &mut chan, 1);
    assert_eq!(r.err(), Some(Error::Transport));
}

#[test]
fn source_end_before_completion_is_an_error() {
    let frames = vec![Ok(ResponseFrame::Quota(quota(b"STORAGE", 1, 2)))];
    let mut src = stream_of(frames);
    let mut chan = UnsolicitedChannel::new();
    let r = parse_get_quota(&mut src, &mut chan, 1);
    assert_eq!(r.err(), Some(Error::Protocol));
}

#[test]
fn session_get_quota_writes_tagged_command() {
    let frames = vec![
        Ok(ResponseFrame::Quota(quota(b"STORAGE", 10, 100))),
        Ok(ResponseFrame::Completion { tag: 0, success: true }),
    ];
    let mut session = Session::new(stream_of(frames));
    let q = session.get_quota(b"INBOX").unwrap();
    assert_eq!(q.resource, b"STORAGE".to_vec());
    let lines = session.conn.stream.written_lines();
    assert_eq!(lines.len(), 1);
    assert_eq!(lines[0], b"0 GETQUOTA INBOX\r\n".to_vec());
}

#[test]
fn session_tags_increase_per_command() {
    let frames = vec![
        Ok(ResponseFrame::Completion { tag: 0, success: true }),
        Ok(ResponseFrame::Completion { tag: 1, success: true }),
    ];
    let mut session = Session::new(stream_of(frames));
    let (r0, q0) = session.get_quota_root(b"INBOX").unwrap();
    assert!(r0.is_empty() && q0.is_empty());
    let (r1, q1) = session.get_quota_root(b"INBOX").unwrap();
    assert!(r1.is_empty() && q1.is_empty());
    let lines = session.conn.stream.written_lines();
    assert_eq!(lines[0], b"0 GETQUOTAROOT INBOX\r\n".to_vec());
    assert_eq!(lines[1], b"1 GETQUOTAROOT INBOX\r\n".to_vec());
}

#[test]
fn negotiation_failure_is_handshake_rejected() {
    // The negotiation command completes with a failure status.
    let frames = vec![Ok(ResponseFrame::Completion { tag: 0, success: false })];
    let session = Session::new(stream_of(frames));
    let r = session.compress(|_ds: DeflateStream<MemTransport>| {
        stream_of(Vec::new())
    });
    match r {
        Err(e) => assert_eq!(e, Error::HandshakeRejected),
        Ok(_) => panic!("a failure completion must reject the handshake"),
    }
}

#[test]
fn negotiation_success_rebuilds_session_with_fresh_tags() {
    let frames = vec![
        Ok(ResponseFrame::Info(b"during negotiation".to_vec())),
        Ok(ResponseFrame::Completion { tag: 0, success: true }),
    ];
    let session = Session::new(stream_of(frames));
    let quota_frames = vec![
        Ok(ResponseFrame::Quota(quota(b"STORAGE", 7, 9))),
        Ok(ResponseFrame::Completion { tag: 0, success: true }),
    ];
    let mut session2 = session
        .compress(move |ds: DeflateStream<MemTransport>| {
            // The raw transport is owned by the compressing wrapper now; the
            // new protocol stream would normally be built over it.
            let _transport = ds.into_inner();
            MemProtocolStream::new(quota_frames, MemTransport::new(Vec::new()))
        })
        .unwrap();
    // The frame read during negotiation went to the (preserved) channel.
    assert!(matches!(session2.unsolicited.try_next(), Some(ResponseFrame::Info(_))));
    // Tags restarted: the next command is tagged 0 again.
    let q = session2.get_quota(b"r").unwrap();
    assert_eq!(q.usage, 7);
    let lines = session2.conn.stream.written_lines();
    assert_eq!(lines[0], b"0 GETQUOTA r\r\n".to_vec());
}

#[test]
fn negotiation_writes_the_compress_line() {
    let frames = vec![Ok(ResponseFrame::Completion { tag: 0, success: true })];
    let mut conn = imap_ext::session::Connection {
        stream: stream_of(frames),
        request_ids: imap_ext::ids::IdGenerator::new(),
    };
    let mut chan = UnsolicitedChannel::new();
    conn.run_command_and_check_ok(b"COMPRESS DEFLATE", &mut chan).unwrap();
    assert_eq!(conn.stream.written_lines()[0], b"0 COMPRESS DEFLATE\r\n".to_vec());
}

#[test]
fn command_line_formatting() {
    assert_eq!(format_command_line(42, b"NOOP"), b"42 NOOP\r\n".to_vec());
    assert_eq!(format_command_line(0, b"X"), b"0 X\r\n".to_vec());
    assert_eq!(
        format_command_line(18446744073709551615, b"A"),
        b"18446744073709551615 A\r\n".to_vec()
    );
}

#[test]
fn id_generator_is_strictly_increasing() {
    let mut ids = imap_ext::ids::IdGenerator::new();
    assert_eq!(ids.generate(), 0);
    assert_eq!(ids.generate(), 1);
    assert_eq!(ids.generate(), 2);
}

#[test]
fn error_descriptions_are_nonempty() {
    for e in [
        Error::Transport,
        Error::Compression,
        Error::Protocol,
        Error::MissingResponse,
        Error::HandshakeRejected,
    ] {
        assert!(!e.describe().is_empty());
    }
}

#[test]
fn channel_is_fifo() {
    let mut chan = UnsolicitedChannel::new();
    assert!(chan.try_next().is_none());
    chan.publish(ResponseFrame::Info(b"a".to_vec()));
    chan.publish(ResponseFrame::Info(b"b".to_vec()));
    match chan.try_next() {
        Some(ResponseFrame::Info(t)) => assert_eq!(t, b"a".to_vec()),
        _ => panic!("first published frame missing"),
    }
    match chan.try_next() {
        Some(ResponseFrame::Info(t)) => assert_eq!(t, b"b".to_vec()),
        _ => panic!("second published frame missing"),
    }
    assert!(chan.try_next().is_none());
}

#[test]
fn forwarding_interleaves_correctly_across_collections() {
    // Two collections drain the same source one after the other and share
    // the unsolicited channel: their forwarded frames appear in exactly the
    // order the frames were read from the source.
    let frames = vec![
        Ok(ResponseFrame::Info(b"one".to_vec())),
        Ok(ResponseFrame::Completion { tag: 1, success: true }),
        Ok(ResponseFrame::Info(b"two".to_vec())),
        Ok(ResponseFrame::Quota(quota(b"STORAGE", 1, 2))),
        Ok(ResponseFrame::Info(b"three".to_vec())),
        Ok(ResponseFrame::Completion { tag: 2, success: true }),
    ];
    let mut src = stream_of(frames);
    let mut chan = UnsolicitedChannel::new();
    collect_check_ok(&mut src, &mut chan, 1).unwrap();
    parse_get_quota(&mut src, &mut chan, 2).unwrap();
    let mut seen = Vec::new();
    while let Some(frame) = chan.try_next() {
        if let ResponseFrame::Info(text) = frame {
            seen.push(text);
        } else {
            panic!("only info frames were forwarded");
        }
    }
    assert_eq!(seen, vec![b"one".to_vec(), b"two".to_vec(), b"three".to_vec()]);
}

#[test]
fn vectored_write_equals_one_concatenated_write() {
    let mut writer = DeflateStream::new(MemTransport::new(Vec::new()));
    let bufs = vec![b"alpha ".to_vec(), b"beta ".to_vec(), b"gamma".to_vec()];
    writer.write_vectored(&bufs).unwrap();
    writer.flush().unwrap();
    let wire = writer.into_inner().take_sent();
    let mut reader = DeflateStream::new(MemTransport::new(wire));
    let back = reader.read_to_end().unwrap();
    assert_eq!(back, b"alpha beta gamma".to_vec());
}

#[test]
fn vectored_read_fills_buffers_in_order() {
    let mut writer = DeflateStream::new(MemTransport::new(Vec::new()));
    writer.write(b"abcdefgh").unwrap();
    writer.flush().unwrap();
    let wire = writer.into_inner().take_sent();
    let mut reader = DeflateStream::new(MemTransport::new(wire));
    let pieces = reader.read_vectored(&vec![3, 3, 2]).unwrap();
    assert_eq!(pieces.len(), 3);
    let mut got = Vec::new();
    for p in &pieces {
        got.extend_from_slice(p);
    }
    // Deliveries are in order and within the requested capacities; together
    // with a final read-to-completion they recover the whole text.
    assert!(pieces[0].len() <= 3 && pieces[1].len() <= 3 && pieces[2].len() <= 2);
    let rest = reader.read_to_end().unwrap();
    got.extend_from_slice(&rest);
    assert_eq!(got, b"abcdefgh".to_vec());
}
