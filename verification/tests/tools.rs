//! The command-line tools: captures, dumps, probes, and text.

use sccm_rc::capture::timeline::{first_graphics, timeline, window, FrameEvent};
use sccm_rc::capture::{
    bytes_carried, connection_in_time, connection_stream, connections, extract_segments,
    parse_segment, Seg, Stream,
};
use sccm_rc::dump::{describe_frame, dump_framed, hexdump, hexdump_line};
use sccm_rc::dump::frames::{dump_timeline, peek_and_dump};
use sccm_rc::probe::{
    classify, decode_maybe_control, explore, is_initiator_token, parse_hex_u8, probe_bytes,
    x224_connection_request, x224_kind, Explored, HexError, Payload, ProbeFraming,
};
use sccm_rc::protocol::framing::encode_data_frame;
use sccm_rc::text::{decode_utf16_lossy, encode_utf16};

const SERVER: [u8; 4] = [10, 0, 0, 1];

/// An Ethernet packet with one TCP segment.
fn packet(to_server: bool, client_port: u16, seq: u32, payload: &[u8]) -> Vec<u8> {
    let client = [10, 0, 0, 2];
    let (src, dst, sp, dp) = if to_server {
        (client, SERVER, client_port, 2701u16)
    } else {
        (SERVER, client, 2701u16, client_port)
    };
    let mut p = vec![0u8; 12];
    p.extend_from_slice(&[8, 0]);
    p.extend_from_slice(&[0x45, 0]);
    p.extend_from_slice(&(40 + payload.len() as u16).to_be_bytes());
    p.extend_from_slice(&[0, 0, 0, 0, 64, 6, 0, 0]);
    p.extend_from_slice(&src);
    p.extend_from_slice(&dst);
    p.extend_from_slice(&sp.to_be_bytes());
    p.extend_from_slice(&dp.to_be_bytes());
    p.extend_from_slice(&seq.to_be_bytes());
    p.extend_from_slice(&[0, 0, 0, 0, 0x50, 0, 0, 0, 0, 0, 0, 0]);
    p.extend_from_slice(payload);
    p
}

/// A pcapng block with a packet.
fn block(ts: u64, packet: &[u8]) -> Vec<u8> {
    let padded = (packet.len() + 3) / 4 * 4;
    let len = (32 + padded) as u32;
    let mut b = Vec::new();
    for n in [6, len, 0, (ts >> 32) as u32, ts as u32, packet.len() as u32, packet.len() as u32] {
        b.extend_from_slice(&n.to_le_bytes());
    }
    b.extend_from_slice(packet);
    b.resize(28 + padded, 0);
    b.extend_from_slice(&len.to_le_bytes());
    b
}

#[test]
fn segments_are_found_in_captures() {
    let s = parse_segment(&packet(true, 5000, 7, b"hi"), &SERVER, 2701, 9).unwrap();
    assert_eq!((s.ts, s.client_port, s.to_server, s.seq), (9, 5000, true, 7));
    assert_eq!(s.payload, b"hi");
    assert!(parse_segment(&packet(true, 5000, 7, b"hi"), &SERVER, 80, 9).is_none());
    assert!(parse_segment(&packet(true, 5000, 7, b""), &SERVER, 2701, 9).is_none());
    assert!(parse_segment(&[0; 10], &SERVER, 2701, 9).is_none());

    let mut file = block(1, &packet(true, 5000, 1, b"abc"));
    file.extend_from_slice(&block(2, &packet(false, 5000, 50, b"xy")));
    file.extend_from_slice(&block(0x1_0000_0003, &packet(true, 6000, 9, b"z")));
    let (segs, packets) = extract_segments(&file, &SERVER, 2701);
    assert_eq!(packets, 3);
    assert_eq!(segs.len(), 3);
    assert_eq!(segs[2].ts, 0x1_0000_0003);
    assert_eq!(connections(&segs), [5000, 6000]);
    let order = connection_in_time(&segs, 5000);
    assert_eq!(order, [0, 1]);
    assert_eq!(bytes_carried(&segs, &order, true), 3);
    assert_eq!(bytes_carried(&segs, &order, false), 2);
    assert_eq!(connection_stream(&segs, &order, true).reassemble(), b"abc");
    // A block that is cut short ends the file.
    assert_eq!(extract_segments(&file[..file.len() - 1], &SERVER, 2701).0.len(), 2);
}

#[test]
fn simple_packet_blocks_are_walked() {
    let simple = |whole: u32, held: &[u8]| {
        let mut b = Vec::new();
        for n in [3, 16 + held.len() as u32, whole] {
            b.extend_from_slice(&n.to_le_bytes());
        }
        b.extend_from_slice(held);
        b.extend_from_slice(&(16 + held.len() as u32).to_le_bytes());
        b
    };
    let mut pkt = packet(true, 5000, 7, b"hello");
    let whole = pkt.len() as u32;
    pkt.resize((pkt.len() + 3) / 4 * 4, 0xee);
    let mut file = simple(whole, &pkt);
    file.extend_from_slice(&block(4, &packet(false, 5000, 8, b"xy")));
    // A packet of which only the front was kept counts, and carries no segment.
    file.extend_from_slice(&simple(whole, &pkt[..56]));
    // A block without room for a packet, and one of another kind.
    file.extend_from_slice(&[3, 0, 0, 0, 12, 0, 0, 0, 12, 0, 0, 0]);
    file.extend_from_slice(&[1, 0, 0, 0, 12, 0, 0, 0, 12, 0, 0, 0]);
    let (segs, packets) = extract_segments(&file, &SERVER, 2701);
    assert_eq!(packets, 3);
    assert_eq!(segs.len(), 2);
    assert_eq!((segs[0].ts, segs[0].client_port, segs[0].to_server), (0, 5000, true));
    assert_eq!(segs[0].payload, b"hello");
    assert_eq!(segs[1].ts, 4);
}

#[test]
fn arrival_order_does_not_matter() {
    let mut a = Stream::default();
    a.add_segment(1, b"abc");
    a.add_segment(4, b"def");
    let mut b = Stream::default();
    b.add_segment(4, b"def");
    b.add_segment(1, b"abc");
    assert_eq!(a.reassemble(), b"abcdef");
    assert_eq!(b.reassemble(), a.reassemble());
    // What is sent again is not taken twice.
    a.add_segment(1, b"abc");
    assert_eq!(a.reassemble(), b"abcdef");
}

fn seg(ts: u64, to_server: bool, seq: u32, payload: &[u8]) -> Seg {
    Seg { ts, client_port: 1, to_server, seq, payload: payload.to_vec() }
}

#[test]
fn timelines_cut_streams_into_frames() {
    let small = encode_data_frame(&[1, 2]);
    let large = encode_data_frame(&[0; 301]);
    let segs = [
        seg(100, true, 0, &small[..3]),
        seg(110, true, 3, &small[3..]),
        seg(120, false, 0, &large),
    ];
    let events = timeline(&segs, &[0, 1, 2]);
    assert_eq!(
        events,
        [
            FrameEvent { at: 10, to_server: true, msg_type: 0, len: 2 },
            FrameEvent { at: 20, to_server: false, msg_type: 0, len: 301 },
        ]
    );
    assert_eq!(first_graphics(&events), Some(1));
    assert_eq!(first_graphics(&events[..1]), None);
    assert_eq!(window(100, Some(40), false), (15, 48));
    assert_eq!(window(100, Some(4), false), (0, 12));
    assert_eq!(window(100, Some(40), true), (0, 100));
    assert_eq!(window(100, None, false), (0, 100));
}

#[test]
fn bytes_are_dumped() {
    assert_eq!(
        hexdump_line(">", 16, b"A\x00z"),
        format!(">0010  {:<48}  A.z\n", "41 00 7a")
    );
    let d = hexdump(&[0x41; 20], 17);
    assert_eq!(d.lines().count(), 3);
    assert!(d.ends_with("   \u{2026} (+3 more bytes)\n"));
    assert_eq!(hexdump(&[], 5), "");
}

#[test]
fn framed_streams_are_described() {
    let mut stream = encode_data_frame(b"hello");
    stream.extend_from_slice(&encode_data_frame(b"bye"));
    let text = dump_framed("client", &stream);
    assert!(text.contains("client"));
    assert!(text.contains(&describe_frame(0, 0, b"hello")) || text.contains("hello"));
    let cut = dump_framed("client", &stream[..7]);
    assert!(cut.contains("bytes left"));
}

#[test]
fn hexadecimal_bytes_are_parsed() {
    assert_eq!(parse_hex_u8("0x7f"), Ok(0x7f));
    assert_eq!(parse_hex_u8("+0A"), Ok(10));
    assert_eq!(parse_hex_u8("0x"), Err(HexError::Empty));
    assert_eq!(parse_hex_u8("g"), Err(HexError::InvalidDigit));
    assert_eq!(parse_hex_u8("100"), Err(HexError::TooLarge));
    // The messages are those of the standard library.
    for (s, e) in [("", HexError::Empty), ("g", HexError::InvalidDigit), ("100", HexError::TooLarge)] {
        assert_eq!(u8::from_str_radix(s, 16).unwrap_err().to_string(), e.message());
    }
}

#[test]
fn probes_are_framed() {
    assert_eq!(probe_bytes(ProbeFraming::Raw, &[9]), [9]);
    assert_eq!(probe_bytes(ProbeFraming::Be32, &[9]), [0, 0, 0, 1, 9]);
    assert_eq!(probe_bytes(ProbeFraming::Le32, &[9]), [1, 0, 0, 0, 9]);
    assert_eq!(probe_bytes(ProbeFraming::Frame(0x80), &[9]), [1, 0, 0, 0x80, 9]);
    assert_eq!(probe_bytes(ProbeFraming::InnerLength(0x80), &[9]), [3, 0, 0, 0x80, 1, 0, 9]);
    let r = x224_connection_request();
    assert_eq!((r.len(), r[3], r[5]), (19, 19, 0xe0));
    assert_eq!(x224_kind(0xd0), "X.224 Connection Confirm");
    assert_eq!(x224_kind(0xe0), "X.224 Connection Request");
    assert_eq!(x224_kind(0xf0), "X.224 Data (RDP PDU)");
    assert_eq!(x224_kind(0x10), "X.224 ?");
}

#[test]
fn answers_are_read_as_control_texts() {
    let utf16 = |s: &str| -> Vec<u8> { s.encode_utf16().flat_map(|u| u.to_le_bytes()).collect() };
    assert_eq!(decode_maybe_control(&utf16("SUCCESS_X")), Some("SUCCESS_X".to_string()));
    let mut prefixed = vec![18, 0];
    prefixed.extend_from_slice(&utf16("SUCCESS_X"));
    assert_eq!(decode_maybe_control(&prefixed), Some("SUCCESS_X".to_string()));
    assert_eq!(decode_maybe_control(&[1]), None);
}

#[test]
fn texts_survive_utf16() {
    for s in ["", "abc", "\u{e9}\u{20ac}\u{1F600}"] {
        assert_eq!(decode_utf16_lossy(&encode_utf16(s)), s);
        assert_eq!(encode_utf16(s), s.encode_utf16().collect::<Vec<u16>>());
    }
    // Halves of pairs are replaced as the standard library does.
    for u in [vec![0xD800], vec![0xDC00, 0x41], vec![0xD800, 0x41], vec![0xD800, 0xD800, 0xDC00]] {
        assert_eq!(decode_utf16_lossy(&u), String::from_utf16_lossy(&u));
    }
}

fn utf16(s: &str) -> Vec<u8> {
    s.encode_utf16().flat_map(|u| u.to_le_bytes()).collect()
}

#[test]
fn payloads_are_told_apart() {
    let granted = classify(&utf16("SUCCESS_FULL_CONTROL"));
    assert!(matches!(&granted, Payload::Control(s) if s == "SUCCESS_FULL_CONTROL"));
    assert_eq!(explore(&granted, false), Explored::Request);
    assert_eq!(explore(&granted, true), Explored::Note);
    assert_eq!(explore(&classify(&utf16("ERROR_ACCESS_DENIED")), false), Explored::Stop);
    assert_eq!(explore(&classify(&utf16("STOP_HANDSHAKE")), false), Explored::Note);
    let confirm = classify(&[0x03, 0x00, 0x01, 0x0b, 0x06, 0xd0, 0x00]);
    assert!(matches!(
        confirm,
        Payload::Pdu { length: 0x010b, kind: "X.224 Connection Confirm" }
    ));
    assert!(matches!(
        classify(&[0x03, 0x00, 0x00, 0x04]),
        Payload::Pdu { length: 4, kind: "X.224 ?" }
    ));
    let other = classify(&[0x80, 0x00, 0x01]);
    assert!(matches!(other, Payload::Binary));
    assert_eq!(explore(&other, false), Explored::Note);
}

#[test]
fn tokens_of_the_initiator_are_known() {
    assert!(is_initiator_token(&[0x05, 0x04, 0x06, 0xff, 0x00]));
    assert!(!is_initiator_token(&[0x05, 0x04, 0x07, 0xff, 0x00]));
    assert!(!is_initiator_token(&[0x05, 0x04, 0x06]));
}

fn frames(kinds: &[(u8, usize)]) -> Vec<u8> {
    let mut v = Vec::new();
    for &(msg_type, len) in kinds {
        v.extend_from_slice(&((len as u32) | ((msg_type as u32) << 24)).to_le_bytes());
        v.extend(std::iter::repeat(0x41).take(len));
    }
    v
}

#[test]
fn frames_are_listed_by_side() {
    let mut c2s = frames(&[(0, 5), (0x80, 12)]);
    // A frame that is cut short is not listed.
    c2s.extend_from_slice(&[9, 0, 0, 0, 1]);
    let s2c = frames(&[(0x80, 300), (0, 301)]);
    assert_eq!(
        dump_timeline(&c2s, &s2c),
        "\n--- CLIENT\u{2192}SERVER frames (2) ---\n  c[  0] type=0x00 len=5\n  \
         c[  1] type=0x80 len=12\n\n--- SERVER\u{2192}CLIENT frames (2) ---\n  \
         s[  0] type=0x80 len=300\n  s[  1] type=0x00 len=301   <== large (graphics?)\n"
    );
}

#[test]
fn long_listings_stop() {
    let many = frames(&[(0, 1); 70]);
    let text = dump_timeline(&many, &many);
    assert!(text.contains("  c[ 61] type=0x00 len=1\n  \u{2026} (+8 more)\n"));
    assert!(!text.contains("c[ 62]"));
    assert!(text.ends_with("  s[ 60] type=0x00 len=1\n"));
    // Large frames are shown; four of them later the server counts as streaming.
    let mut kinds = [(0, 1); 80];
    kinds[62] = (0, 400);
    let text = dump_timeline(&[], &frames(&kinds));
    assert!(text.ends_with(
        "  s[ 60] type=0x00 len=1\n  s[ 62] type=0x00 len=400   <== large (graphics?)\n  \
         \u{2026} (server streaming; stop)\n"
    ));
}

#[test]
fn payloads_are_peeked_at() {
    assert_eq!(peek_and_dump(&[0x41]), format!("    [1 bytes] (short)\n   0000  {:<48}  A\n", "41"));
    let mut p = vec![6, 0, 0, 0x80, 4, 0];
    p.extend_from_slice(&utf16("OK"));
    let text = peek_and_dump(&p);
    assert!(text.starts_with("    [10 bytes] hdr=0x80000006 type=0x80 CONTROL body_len=6  \"OK\"\n"));
    assert!(peek_and_dump(&[1, 0, 0, 0, 9]).starts_with("    [5 bytes] hdr=0x00000001 type=0x00 DATA body_len=1\n"));
    assert!(peek_and_dump(&[1, 0, 0, 7, 9]).starts_with("    [5 bytes] hdr=0x07000001 type=0x07 ? body_len=1\n"));
}
