//! The wire protocol: frames, tokens, clipboard messages and bulk compression.

use sccm_rc::protocol::cliprdr::{
    file_group_descriptor, format_data_request, format_data_response_text, format_list_text,
    header, parse, ClipPdu, CB_FILECONTENTS_REQUEST, CF_UNICODETEXT, FILECONTENTS_RANGE,
};
use sccm_rc::protocol::framing::{
    decode_control_string, decode_handshake_body, encode_handshake_token, parse_header,
    MSG_TYPE_DATA,
};
use sccm_rc::protocol::handshake::build_spn;
use sccm_rc::protocol::mppc::MppcDecompressor;

#[test]
fn roundtrip_format_data_response_text() {
    let pdu = format_data_response_text("Hi!");
    match parse(&pdu).unwrap() {
        ClipPdu::FormatDataResponse { ok, text } => {
            assert!(ok);
            assert_eq!(text.as_deref(), Some("Hi!"));
        }
        other => panic!("wrong variant: {other:?}"),
    }
}

#[test]
fn format_list_text_is_detected() {
    let pdu = format_list_text(true);
    match parse(&pdu).unwrap() {
        ClipPdu::FormatList { has_text } => assert!(has_text),
        other => panic!("wrong variant: {other:?}"),
    }
    let empty = format_list_text(false);
    match parse(&empty).unwrap() {
        ClipPdu::FormatList { has_text } => assert!(!has_text),
        other => panic!("wrong variant: {other:?}"),
    }
}

#[test]
fn parse_format_data_request() {
    let pdu = format_data_request(CF_UNICODETEXT);
    match parse(&pdu).unwrap() {
        ClipPdu::FormatDataRequest { format_id } => assert_eq!(format_id, CF_UNICODETEXT),
        other => panic!("wrong variant: {other:?}"),
    }
}

#[test]
fn file_group_descriptor_layout() {
    // cItems(4) + one 592-byte CLIPRDR_FILEDESCRIPTOR.
    let fgd = file_group_descriptor("tool.exe", 0x1_0000_0042);
    assert_eq!(fgd.len(), 4 + 592);
    assert_eq!(&fgd[0..4], &1u32.to_le_bytes()); // cItems = 1
    // fileSizeHigh/Low behind flags(4), reserved(32), attributes(4), reserved(16), time(8).
    assert_eq!(&fgd[68..72], &1u32.to_le_bytes()); // high
    assert_eq!(&fgd[72..76], &0x42u32.to_le_bytes()); // low
}

#[test]
fn file_contents_request_parses() {
    // streamId=9, lindex=0, RANGE, position=0x1_0000_0005, requested=4096.
    let mut data = Vec::new();
    data.extend_from_slice(&9u32.to_le_bytes());
    data.extend_from_slice(&0u32.to_le_bytes());
    data.extend_from_slice(&FILECONTENTS_RANGE.to_le_bytes());
    data.extend_from_slice(&5u32.to_le_bytes()); // posLow
    data.extend_from_slice(&1u32.to_le_bytes()); // posHigh
    data.extend_from_slice(&4096u32.to_le_bytes());
    let pdu = header(CB_FILECONTENTS_REQUEST, 0, &data);
    match parse(&pdu).unwrap() {
        ClipPdu::FileContentsRequest { stream_id, size_only, position, requested, .. } => {
            assert_eq!(stream_id, 9);
            assert!(!size_only);
            assert_eq!(position, 0x1_0000_0005);
            assert_eq!(requested, 4096);
        }
        other => panic!("wrong variant: {other:?}"),
    }
}

#[test]
fn roundtrip_handshake_token() {
    let token = b"\x60\x82\x0d\x63 fake AP-REQ";
    let wire = encode_handshake_token(token);
    // header
    let h = parse_header(&wire).unwrap();
    assert_eq!(h.msg_type, MSG_TYPE_DATA);
    assert_eq!(h.body_len, 2 + token.len());
    // body
    let body = &wire[4..];
    assert_eq!(decode_handshake_body(body).unwrap(), token);
}

#[test]
fn parses_real_ap_rep_header() {
    let wire = [0xbb, 0x00, 0x00, 0x00, 0xb9, 0x00, 0xa1, 0x81, 0xb6];
    let h = parse_header(&wire).unwrap();
    assert_eq!(h.msg_type, 0x00);
    assert_eq!(h.body_len, 0xbb); // 187
}

#[test]
fn decodes_start_handshake_control() {
    // 20 00 then "START_HANDSHAKE" in UTF-16LE then 00 00
    let mut body = vec![0x20, 0x00];
    for ch in "START_HANDSHAKE".encode_utf16() {
        body.extend_from_slice(&ch.to_le_bytes());
    }
    body.extend_from_slice(&[0, 0]);
    assert_eq!(decode_control_string(&body).as_deref(), Some("START_HANDSHAKE"));
}

#[test]
fn spn_format_matches_original() {
    assert_eq!(build_spn("CLIENT01"), "TERMSRV/CLIENT01");
}

#[test]
fn uncompressed_passthrough() {
    let mut d = MppcDecompressor::new();
    let out = d.decompress(b"hello", false, false, false);
    assert_eq!(out, b"hello");
}

#[test]
fn literal_roundtrip_lowascii() {
    // "AB" (0x41 0x42) as two `0`+7bit literals = 0100_0001 0100_0010.
    let mut d = MppcDecompressor::new();
    let out = d.decompress(&[0b0100_0001, 0b0100_0010], true, false, false);
    assert_eq!(out, b"AB");
}

#[test]
fn freerdp_rdp5_bells_vector() {
    // The RDP5/64K vector of FreeRDP's own tests (packet at front, compressed).
    let compressed = [
        0x66, 0x6f, 0x72, 0x2e, 0x77, 0x68, 0x6f, 0x6d, 0x2e, 0x74, 0x68, 0x65, 0x2e, 0x62, 0x65,
        0x6c, 0x6c, 0x2e, 0x74, 0x6f, 0x6c, 0x6c, 0x73, 0x2c, 0xfa, 0x1b, 0x97, 0x33, 0x7e, 0x87,
        0xe3, 0x32, 0x90, 0x80,
    ];
    let expected: &[u8] = b"for.whom.the.bell.tolls,.the.bell.tolls.for.thee!";
    let mut d = MppcDecompressor::new();
    let out = d.decompress(&compressed, true, true, false);
    assert_eq!(out, expected, "\n got: {:02x?}\nwant: {:02x?}", out, expected);
}

#[test]
fn copy_tuple_roundtrip() {
    // "ABCABC": literals A,B,C (each `0`+7bits) then a copy of three bytes from three
    // back (`11111`+6bits=3, `0`). The trailing zero bits are padding.
    let mut d = MppcDecompressor::new();
    let out = d.decompress(&[0x41, 0x42, 0x43, 0xF8, 0x60], true, false, false);
    assert_eq!(out, b"ABCABC");
}
