//! The channels of a session: arbitration, curtain and clipboard.

use sccm_rc::protocol::cliprdr::{
    capabilities, capabilities_files, file_contents_response_fail, file_contents_response_range,
    file_contents_response_size, format_data_request, format_data_response_bytes,
    format_data_response_fail, format_data_response_text, format_list_long,
    format_list_response_ok, format_list_text, header, parse, ClipPdu, CB_FILECONTENTS_REQUEST,
    CB_MONITOR_READY, CF_FILEGROUPDESCRIPTORW, CF_UNICODETEXT, FILECONTENTS_SIZE,
};
use sccm_rc::rdp::channels::{
    declared_channels, dvc_command, wants_dump, ArbitrationChannel, ArbitrationPolicy, Channel,
    ChannelSettings, CurtainChannel,
};
use sccm_rc::rdp::clipboard::{ClipTask, CliprdrChannel, FileUse, TextUse};

fn policy(takeover: bool, reply: Option<u32>) -> ArbitrationPolicy {
    ArbitrationPolicy { takeover, client_name: "me".to_string(), reply }
}

#[test]
fn arbitration_answers_at_most_twice() {
    let in_use = ArbitrationChannel::event(1, 0);
    assert_eq!(in_use, [2, 0, 0, 0, 16, 0, 0, 0, 1, 0, 0, 0, 0, 0, 0, 0]);
    let mut c = ArbitrationChannel::default();
    let p = policy(true, Some(3));
    let takeover = ArbitrationChannel::takeover("me");
    assert_eq!(takeover.len(), 1036);
    assert_eq!(&takeover[..18], [2, 0, 0, 0, 0x0c, 4, 0, 0, 5, 0, 0, 0, b'm', 0, b'e', 0, 0, 0]);
    assert_eq!(c.process(&in_use, &p), [takeover]);
    assert_eq!(c.process(&in_use, &p), [ArbitrationChannel::event(3, 0)]);
    for _ in 0..3 {
        assert!(c.process(&in_use, &p).is_empty());
    }
    // Without leave to take over, a busy host only gets the follow-up, if any.
    let mut d = ArbitrationChannel::default();
    assert!(d.process(&in_use, &policy(false, None)).is_empty());
    assert!(d.process(&[1, 2], &policy(true, None)).is_empty());
}

#[test]
fn curtains_open_and_close() {
    assert_eq!(CurtainChannel::enable(None), [1, 0, 0, 0, 12, 0, 0, 0, 5, 0, 0, 0]);
    assert_eq!(CurtainChannel::disable(None), [1, 0, 0, 0, 12, 0, 0, 0, 6, 0, 0, 0]);
    assert_eq!(CurtainChannel::enable(Some(9))[8], 9);
}

#[test]
fn channel_names_keep_their_order() {
    let names = |clipboard: bool, curtain: bool| -> Vec<&'static str> {
        declared_channels(ChannelSettings { arbitration: true, passive: false, clipboard, curtain })
            .iter()
            .map(|c| c.name().as_str())
            .collect()
    };
    let want = ["rdpdr", "rdpsnd", "cliprdr", "curtain", "sessarb", "dynres", "dskcfg", "drdynvc"];
    for clipboard in [false, true] {
        for curtain in [false, true] {
            assert_eq!(names(clipboard, curtain), want);
        }
    }
    let none = ChannelSettings { arbitration: false, passive: false, clipboard: true, curtain: true };
    assert!(declared_channels(none).is_empty());
    assert_eq!(declared_channels(ChannelSettings { passive: true, ..none }).len(), 4);
    let full = ChannelSettings { arbitration: true, ..none };
    assert_eq!(declared_channels(full)[2], Channel::Clipboard);
}

#[test]
fn dumps_are_asked_for_by_name() {
    assert!(wants_dump("dynres", "dynres"));
    assert!(!wants_dump("dynres", "dskcfg"));
    assert_ne!(dvc_command(0x10), dvc_command(0x50));
}

fn replies(t: ClipTask) -> Vec<Vec<u8>> {
    match t {
        ClipTask::Reply(m) => m,
        _ => panic!("an answer without a look at the clipboard"),
    }
}

#[test]
fn remote_text_is_not_echoed() {
    let mut c = CliprdrChannel::default();
    assert!(!c.is_ready());
    // Nothing is announced before the server is ready.
    assert_eq!(c.local_changed(Some("x".to_string())), None);
    assert!(matches!(c.process(&header(CB_MONITOR_READY, 0, &[])), ClipTask::ReadText(TextUse::Announce)));
    assert!(c.is_ready());
    let hello = c.on_text(TextUse::Announce, None);
    assert_eq!(hello, [capabilities_files(), format_list_long(&[])]);
    // The remote announces text, sends it, and it is put on the clipboard.
    assert_eq!(
        replies(c.process(&format_list_text(true))),
        [format_list_response_ok(), format_data_request(CF_UNICODETEXT)]
    );
    match c.process(&format_data_response_text("from afar")) {
        ClipTask::WriteText(t) => c.on_written(t),
        _ => panic!("the text goes to the clipboard"),
    }
    assert_eq!(c.local_changed(Some("from afar".to_string())), None);
    // A local change is announced once.
    let news = c.local_changed(Some("mine".to_string()));
    assert_eq!(news, Some(format_list_long(&[(CF_UNICODETEXT, "")])));
    assert_eq!(c.local_changed(Some("mine".to_string())), None);
}

#[test]
fn text_reaches_the_other_side() {
    let mut from = CliprdrChannel::default();
    let mut to = CliprdrChannel::default();
    assert!(matches!(from.process(&format_data_request(CF_UNICODETEXT)), ClipTask::ReadText(TextUse::Send)));
    let answer = from.on_text(TextUse::Send, Some("h\u{e9}llo \u{1F600}".to_string()));
    assert_eq!(answer.len(), 1);
    match to.process(&answer[0]) {
        ClipTask::WriteText(t) => assert_eq!(t, "h\u{e9}llo \u{1F600}"),
        _ => panic!("the text goes to the clipboard"),
    }
    assert_eq!(from.on_text(TextUse::Send, Some(String::new())), [format_data_response_fail()]);
    assert!(replies(to.process(&format_data_response_fail())).is_empty());
}

#[test]
fn files_are_offered_and_read() {
    let mut c = CliprdrChannel::default();
    assert_eq!(
        replies(c.process(&format_data_request(CF_FILEGROUPDESCRIPTORW))),
        [format_data_response_fail()]
    );
    let offer = c.offer_file("C:\\a.txt".to_string());
    assert_eq!(offer, format_list_long(&[(CF_FILEGROUPDESCRIPTORW, "FileGroupDescriptorW")]));
    assert_eq!(c.offered_file(), Some("C:\\a.txt"));
    assert!(matches!(
        c.process(&format_data_request(CF_FILEGROUPDESCRIPTORW)),
        ClipTask::ReadFile(FileUse::Describe)
    ));
    let info = Some(("a.txt".to_string(), 10));
    assert_eq!(
        CliprdrChannel::on_file(FileUse::Describe, info),
        format_data_response_bytes(&sccm_rc::protocol::cliprdr::file_group_descriptor("a.txt", 10))
    );
    let request = |flags: u32, requested: u32| {
        let mut d = Vec::new();
        for n in [4u32, 0, flags, 6, 0, requested] {
            d.extend_from_slice(&n.to_le_bytes());
        }
        header(CB_FILECONTENTS_REQUEST, 0, &d)
    };
    assert!(matches!(
        c.process(&request(FILECONTENTS_SIZE, 8)),
        ClipTask::ReadFile(FileUse::Size(4))
    ));
    assert!(matches!(
        c.process(&request(2, 0xFFFF_FFFF)),
        ClipTask::ReadRange { stream_id: 4, position: 6, len: 8_388_608 }
    ));
    assert_eq!(CliprdrChannel::on_file(FileUse::Size(4), None), file_contents_response_fail(4));
    assert_eq!(
        CliprdrChannel::on_file(FileUse::Size(4), Some(("a".to_string(), 10))),
        file_contents_response_size(4, 10)
    );
    assert_eq!(CliprdrChannel::on_range(4, Some(vec![1])), file_contents_response_range(4, &[1]));
    assert_eq!(CliprdrChannel::on_range(4, None), file_contents_response_fail(4));
}

#[test]
fn clipboard_messages_have_a_header() {
    assert_eq!(header(2, 3, &[7]), [2, 0, 3, 0, 1, 0, 0, 0, 7]);
    assert!(parse(&[1, 2, 3]).is_none());
    assert!(matches!(parse(&header(0x99, 0, &[])), Some(ClipPdu::Other { msg_type: 0x99 })));
    assert!(matches!(parse(&capabilities()), Some(ClipPdu::Capabilities)));
    assert!(matches!(parse(&format_list_response_ok()), Some(ClipPdu::FormatListResponse { ok: true })));
    assert!(matches!(
        parse(&format_data_response_fail()),
        Some(ClipPdu::FormatDataResponse { ok: false, text: None })
    ));
}

#[test]
fn long_format_lists_are_read_back() {
    let has_text = |formats: &[(u32, &str)]| match parse(&format_list_long(formats)) {
        Some(ClipPdu::FormatList { has_text }) => has_text,
        other => panic!("not a format list: {other:?}"),
    };
    assert!(has_text(&[(CF_UNICODETEXT, "")]));
    assert!(has_text(&[(0xC000, "HTML Format"), (1, "caf\u{e9} \u{1f600}")]));
    assert!(has_text(&[(0xC000, ""), (0xC001, "\u{d}"), (13, ""), (0xC002, "x")]));
    assert!(!has_text(&[(0xC000, "HTML Format"), (14, "")]));
    // An id is not looked for inside a name.
    assert!(!has_text(&[(0xC000, "ab\u{d}"), (2, "\u{1}")]));
}

#[test]
fn texts_end_at_a_null() {
    let text = |t: &str| match parse(&format_data_response_text(t)) {
        Some(ClipPdu::FormatDataResponse { ok: true, text }) => text.unwrap(),
        other => panic!("not a response: {other:?}"),
    };
    assert_eq!(text("a\u{1f600}\0b\0"), "a\u{1f600}");
    assert_eq!(text("\0b"), "");
    assert_eq!(text("whole"), "whole");
}
