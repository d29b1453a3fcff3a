//! Clipboard sharing over the `cliprdr` channel: the decisions of the client.
//!
//! A message of the server either has its answer at once, or needs something of
//! the local machine first (the clipboard's text, the offered file); the caller
//! performs that task and hands the outcome back.

use crate::protocol::cliprdr::{
    before_null, capabilities_files, file_contents_response_fail, file_contents_response_range,
    file_contents_response_size, file_group_descriptor, format_data_request,
    format_data_response_bytes, format_data_response_fail, format_data_response_text,
    format_list_long, format_list_response_ok, general_capability, group_descriptor,
    law_refused_response_has_no_text, law_text_response_round_trip, long_list, message, parse, parsed, text_data, ClipPdu, ClipView,
    CB_CLIP_CAPS, CB_FILECONTENTS_RESPONSE, CB_FORMAT_DATA_REQUEST, CB_FORMAT_DATA_RESPONSE,
    CB_FORMAT_LIST, CB_FORMAT_LIST_RESPONSE, CB_RESPONSE_FAIL, CB_RESPONSE_OK,
    CF_FILEGROUPDESCRIPTORW, CF_TEXT, CF_UNICODETEXT, FILE_CAPABILITY_FLAGS,
};
use crate::text::{same_text, utf16};
use crate::wire::{bytes32, bytes64, contents};
use vstd::prelude::*;

verus! {

/// The most that is read of a file for one request.
pub const RANGE_LIMIT: u32 = 8388608;

/// The name of the registered format that offers a file.
pub open spec fn file_format() -> Seq<char> {
    "FileGroupDescriptorW"@
}

/// What a channel knows: the last clipboard text it is aware of (which keeps a
/// text that came from the remote from being announced back), the file on offer,
/// and whether the server is ready.
#[verifier::ext_equal]
pub struct ClipState {
    pub known: Option<Seq<char>>,
    pub file: Option<Seq<char>>,
    pub ready: bool,
}

/// A text as characters.
pub open spec fn text_of(s: Option<String>) -> Option<Seq<char>> {
    match s {
        Some(t) => Some(t@),
        None => None,
    }
}

/// A clipboard text counts only if it is not empty.
pub open spec fn usable(s: Option<Seq<char>>) -> Option<Seq<char>> {
    match s {
        Some(t) => if t.len() > 0 {
            Some(t)
        } else {
            None
        },
        None => None,
    }
}

impl ClipState {
    /// What the client offers: the clipboard's text, the file, or both.
    pub open spec fn offers(self) -> Seq<u8> {
        (if self.known is Some {
            bytes32(CF_UNICODETEXT) + text_data(""@)
        } else {
            Seq::empty()
        }) + (if self.file is Some {
            bytes32(CF_FILEGROUPDESCRIPTORW) + text_data(file_format())
        } else {
            Seq::empty()
        })
    }

    /// The announcement of what the client offers.
    pub open spec fn announcement(self) -> Seq<u8> {
        message(CB_FORMAT_LIST, 0, self.offers())
    }
}

/// What the clipboard's text is read for.
#[derive(Debug, Clone, Copy, PartialEq, Eq, Structural)]
pub enum TextUse {
    /// To announce it.
    Announce,
    /// To send it.
    Send,
}

/// What the name and the size of the offered file are read for.
#[derive(Debug, Clone, Copy, PartialEq, Eq, Structural)]
pub enum FileUse {
    /// To describe the file.
    Describe,
    /// To tell its size to a stream.
    Size(u32),
}

/// What a message of the server asks of the client.
pub enum ClipTask {
    /// Send these messages.
    Reply(Vec<Vec<u8>>),
    /// Read the clipboard's text.
    ReadText(TextUse),
    /// Find out the name and the size of the offered file.
    ReadFile(FileUse),
    /// Read a range of the offered file for a stream.
    ReadRange { stream_id: u32, position: u64, len: u32 },
    /// Put a text on the clipboard.
    WriteText(String),
}

/// What a message of the server asks of the client.
pub enum ClipTaskView {
    Reply(Seq<Seq<u8>>),
    ReadText(TextUse),
    ReadFile(FileUse),
    ReadRange { stream_id: u32, position: u64, len: u32 },
    WriteText(Seq<char>),
}

impl View for ClipTask {
    type V = ClipTaskView;

    open spec fn view(&self) -> ClipTaskView {
        match *self {
            ClipTask::Reply(m) => ClipTaskView::Reply(contents(m@)),
            ClipTask::ReadText(u) => ClipTaskView::ReadText(u),
            ClipTask::ReadFile(u) => ClipTaskView::ReadFile(u),
            ClipTask::ReadRange { stream_id, position, len } => ClipTaskView::ReadRange {
                stream_id,
                position,
                len,
            },
            ClipTask::WriteText(t) => ClipTaskView::WriteText(t@),
        }
    }
}

/// The refusal of a data request.
pub open spec fn refusal() -> Seq<u8> {
    message(CB_FORMAT_DATA_RESPONSE, CB_RESPONSE_FAIL, Seq::empty())
}

/// The refusal of a file request.
pub open spec fn file_refusal(stream_id: u32) -> Seq<u8> {
    message(CB_FILECONTENTS_RESPONSE, CB_RESPONSE_FAIL, bytes32(stream_id))
}

impl ClipState {
    /// What a message asks of the client.
    pub open spec fn task(self, pdu: ClipView) -> ClipTaskView {
        let nothing = ClipTaskView::Reply(Seq::empty());
        match pdu {
            ClipView::MonitorReady => ClipTaskView::ReadText(TextUse::Announce),
            ClipView::FormatList { has_text } => {
                let ok = message(CB_FORMAT_LIST_RESPONSE, CB_RESPONSE_OK, Seq::empty());
                if has_text {
                    ClipTaskView::Reply(
                        seq![
                            ok,
                            message(CB_FORMAT_DATA_REQUEST, 0, bytes32(CF_UNICODETEXT)),
                        ],
                    )
                } else {
                    ClipTaskView::Reply(seq![ok])
                }
            },
            ClipView::FormatDataRequest { format_id } => if format_id == CF_FILEGROUPDESCRIPTORW {
                if self.file is Some {
                    ClipTaskView::ReadFile(FileUse::Describe)
                } else {
                    ClipTaskView::Reply(seq![refusal()])
                }
            } else if format_id == CF_UNICODETEXT || format_id == CF_TEXT {
                ClipTaskView::ReadText(TextUse::Send)
            } else {
                ClipTaskView::Reply(seq![refusal()])
            },
            ClipView::FileContentsRequest { stream_id, lindex, size_only, position, requested } =>
                if self.file is None {
                    ClipTaskView::Reply(seq![file_refusal(stream_id)])
                } else if size_only {
                    ClipTaskView::ReadFile(FileUse::Size(stream_id))
                } else {
                    ClipTaskView::ReadRange {
                        stream_id,
                        position,
                        len: if requested <= RANGE_LIMIT {
                            requested
                        } else {
                            RANGE_LIMIT
                        },
                    }
                },
            ClipView::FormatDataResponse { ok, text } => if ok && usable(text) is Some {
                ClipTaskView::WriteText(text.unwrap())
            } else {
                nothing
            },
            _ => nothing,
        }
    }

    /// The channel after a message.
    pub open spec fn after(self, pdu: ClipView) -> ClipState {
        if pdu is MonitorReady {
            ClipState { ready: true, ..self }
        } else {
            self
        }
    }

    /// The channel once the clipboard's text has been read, and the answer.
    pub open spec fn with_text(self, used: TextUse, text: Option<Seq<char>>) -> (
        ClipState,
        Seq<Seq<u8>>,
    ) {
        match used {
            TextUse::Announce => {
                let next = ClipState { known: usable(text), ..self };
                (
                    next,
                    seq![
                        message(CB_CLIP_CAPS, 0, general_capability(FILE_CAPABILITY_FLAGS)),
                        next.announcement(),
                    ],
                )
            },
            TextUse::Send => (
                self,
                match usable(text) {
                    Some(t) => seq![message(CB_FORMAT_DATA_RESPONSE, CB_RESPONSE_OK, text_data(t))],
                    None => seq![refusal()],
                },
            ),
        }
    }

    /// The channel after the local clipboard has been looked at, and the
    /// announcement of a change.
    pub open spec fn polled(self, text: Option<Seq<char>>) -> (ClipState, Option<Seq<u8>>) {
        if self.ready && usable(text) != self.known {
            let next = ClipState { known: usable(text), ..self };
            (next, Some(next.announcement()))
        } else {
            (self, None)
        }
    }

    /// The channel after a text of the remote has been put on the clipboard.
    pub open spec fn written(self, text: Seq<char>) -> ClipState {
        ClipState { known: Some(text), ..self }
    }
}

/// The answer once the offered file has been looked at.
pub open spec fn file_answer(used: FileUse, info: Option<(Seq<char>, u64)>) -> Seq<u8> {
    match (used, info) {
        (FileUse::Describe, Some((name, size))) => message(
            CB_FORMAT_DATA_RESPONSE,
            CB_RESPONSE_OK,
            group_descriptor(name, size),
        ),
        (FileUse::Describe, None) => refusal(),
        (FileUse::Size(id), Some((name, size))) => message(
            CB_FILECONTENTS_RESPONSE,
            CB_RESPONSE_OK,
            bytes32(id) + bytes64(size),
        ),
        (FileUse::Size(id), None) => file_refusal(id),
    }
}

/// The answer once a range of the offered file has been read.
pub open spec fn range_answer(stream_id: u32, bytes: Option<Seq<u8>>) -> Seq<u8> {
    match bytes {
        Some(b) => message(CB_FILECONTENTS_RESPONSE, CB_RESPONSE_OK, bytes32(stream_id) + b),
        None => file_refusal(stream_id),
    }
}

/// Clipboard sharing over the `cliprdr` static virtual channel. The client's part
/// of the handshake, remote text coming in and requests of the server are
/// reactive; changes of the local clipboard are found by polling.
#[derive(Debug)]
pub struct CliprdrChannel {
    known: Option<String>,
    /// A local file the operator offered to the remote (to be pasted there).
    pending_file: Option<String>,
    /// True once the server has said that it is ready. Nothing is announced
    /// before that: a strict server drops what comes out of sequence.
    ready: bool,
}

impl View for CliprdrChannel {
    type V = ClipState;

    closed spec fn view(&self) -> ClipState {
        ClipState {
            known: text_of(self.known),
            file: text_of(self.pending_file),
            ready: self.ready,
        }
    }
}

impl Default for CliprdrChannel {
    fn default() -> (r: Self)
        ensures
            r@ == (ClipState { known: None, file: None, ready: false }),
    {
        CliprdrChannel { known: None, pending_file: None, ready: false }
    }
}

fn one(m: Vec<u8>) -> (r: Vec<Vec<u8>>)
    ensures
        contents(r@) == seq![m@],
{
    let mut v: Vec<Vec<u8>> = Vec::new();
    v.push(m);
    assert(contents(v@) =~= seq![m@]);
    v
}

fn two(a: Vec<u8>, b: Vec<u8>) -> (r: Vec<Vec<u8>>)
    ensures
        contents(r@) == seq![a@, b@],
{
    let mut v: Vec<Vec<u8>> = Vec::new();
    v.push(a);
    v.push(b);
    assert(contents(v@) =~= seq![a@, b@]);
    v
}

fn none() -> (r: Vec<Vec<u8>>)
    ensures
        contents(r@) == Seq::<Seq<u8>>::empty(),
{
    let v: Vec<Vec<u8>> = Vec::new();
    assert(contents(v@) =~= Seq::<Seq<u8>>::empty());
    v
}

/// The text, if it is not empty.
fn usable_text(s: Option<String>) -> (r: Option<String>)
    ensures
        text_of(r) == usable(text_of(s)),
{
    match s {
        Some(t) => {
            if same_text(t.as_str(), "") {
                proof {
                    reveal_strlit("");
                    assert(t@ == ""@);
                }
                None
            } else {
                proof {
                    reveal_strlit("");
                    if t@.len() == 0 {
                        assert(t@ =~= ""@);
                    }
                }
                Some(t)
            }
        },
        None => None,
    }
}

fn same_known(a: &Option<String>, b: &Option<String>) -> (r: bool)
    ensures
        r == (text_of(*a) == text_of(*b)),
{
    match (a, b) {
        (Some(x), Some(y)) => same_text(x.as_str(), y.as_str()),
        (None, None) => true,
        _ => false,
    }
}

impl CliprdrChannel {
    /// Build the Format List announcing what we currently offer (long format
    /// names): the local clipboard text, the offered file, or both.
    fn format_list(&self) -> (v: Vec<u8>)
        ensures
            v@ == self@.announcement(),
    {
        let mut formats: Vec<(u32, &str)> = Vec::new();
        if self.known.is_some() {
            formats.push((CF_UNICODETEXT, ""));
        }
        if self.pending_file.is_some() {
            formats.push((CF_FILEGROUPDESCRIPTORW, "FileGroupDescriptorW"));
        }
        proof {
            let f = formats@;
            reveal_with_fuel(long_list, 3);
            if f.len() == 2 {
                assert(f.drop_last().drop_last() =~= Seq::empty());
            }
            if f.len() == 1 {
                assert(f.drop_last() =~= Seq::empty());
            }
            assert(long_list(f) =~= self@.offers());
        }
        format_list_long(formats.as_slice())
    }

    /// Offer a local file to the remote (the operator pastes it there). Returns
    /// the Format List PDU announcing it.
    pub fn offer_file(&mut self, path: String) -> (v: Vec<u8>)
        ensures
            final(self)@ == (ClipState { file: Some(path@), ..old(self)@ }),
            v@ == final(self)@.announcement(),
    {
        self.pending_file = Some(path);
        self.format_list()
    }

    /// The file on offer.
    pub fn offered_file(&self) -> (r: Option<&str>)
        ensures
            match r {
                Some(p) => self@.file == Some(p@),
                None => self@.file is None,
            },
    {
        match &self.pending_file {
            Some(p) => Some(p.as_str()),
            None => None,
        }
    }

    /// Whether it is time to look at the local clipboard.
    pub fn is_ready(&self) -> (r: bool)
        ensures
            r == self@.ready,
    {
        self.ready
    }

    /// Called periodically with the local clipboard's text. If it changed (and is
    /// not one that just came from the remote), returns a Format List PDU
    /// announcing it to the server.
    pub fn local_changed(&mut self, text: Option<String>) -> (r: Option<Vec<u8>>)
        ensures
            final(self)@ == old(self)@.polled(text_of(text)).0,
            match r {
                Some(v) => old(self)@.polled(text_of(text)).1 == Some(v@),
                None => old(self)@.polled(text_of(text)).1 is None,
            },
    {
        if !self.ready {
            return None;
        }
        let text: Option<String> = usable_text(text);
        if same_known(&text, &self.known) {
            return None;
        }
        self.known = text;
        Some(self.format_list())
    }

    /// Take a message of the server. A message that is cut short asks nothing.
    pub fn process(&mut self, payload: &[u8]) -> (r: ClipTask)
        ensures
            match parsed(payload@) {
                Some(pdu) => final(self)@ == old(self)@.after(pdu) && r@ == old(self)@.task(pdu),
                None => final(self)@ == old(self)@ && r@ == ClipTaskView::Reply(Seq::empty()),
            },
    {
        let pdu: ClipPdu = match parse(payload) {
            Some(pdu) => pdu,
            None => {
                return ClipTask::Reply(none());
            },
        };
        match pdu {
            ClipPdu::MonitorReady => {
                self.ready = true;
                ClipTask::ReadText(TextUse::Announce)
            },
            ClipPdu::FormatList { has_text } => {
                // Acknowledge, then pull the text so that it lands on our clipboard.
                if has_text {
                    ClipTask::Reply(
                        two(format_list_response_ok(), format_data_request(CF_UNICODETEXT)),
                    )
                } else {
                    ClipTask::Reply(one(format_list_response_ok()))
                }
            },
            ClipPdu::FormatDataRequest { format_id } => {
                // The remote pastes: it wants our text or our file's descriptor.
                if format_id == CF_FILEGROUPDESCRIPTORW {
                    if self.pending_file.is_some() {
                        ClipTask::ReadFile(FileUse::Describe)
                    } else {
                        ClipTask::Reply(one(format_data_response_fail()))
                    }
                } else if format_id == CF_UNICODETEXT || format_id == CF_TEXT {
                    ClipTask::ReadText(TextUse::Send)
                } else {
                    ClipTask::Reply(one(format_data_response_fail()))
                }
            },
            ClipPdu::FileContentsRequest { stream_id, lindex: _, size_only, position, requested } =>
                {
                if self.pending_file.is_none() {
                    ClipTask::Reply(one(file_contents_response_fail(stream_id)))
                } else if size_only {
                    ClipTask::ReadFile(FileUse::Size(stream_id))
                } else {
                    ClipTask::ReadRange {
                        stream_id,
                        position,
                        len: if requested <= RANGE_LIMIT {
                            requested
                        } else {
                            RANGE_LIMIT
                        },
                    }
                }
            },
            ClipPdu::FormatDataResponse { ok, text } => {
                if ok {
                    match usable_text(text) {
                        Some(t) => ClipTask::WriteText(t),
                        None => ClipTask::Reply(none()),
                    }
                } else {
                    ClipTask::Reply(none())
                }
            },
            _ => ClipTask::Reply(none()),
        }
    }

    /// The clipboard's text has been read.
    pub fn on_text(&mut self, used: TextUse, text: Option<String>) -> (r: Vec<Vec<u8>>)
        ensures
            (final(self)@, contents(r@)) == old(self)@.with_text(used, text_of(text)),
    {
        match used {
            TextUse::Announce => {
                self.known = usable_text(text);
                two(capabilities_files(), self.format_list())
            },
            TextUse::Send => match usable_text(text) {
                Some(t) => one(format_data_response_text(t.as_str())),
                None => one(format_data_response_fail()),
            },
        }
    }

    /// The name and the size of the offered file have been found out, or not.
    pub fn on_file(used: FileUse, info: Option<(String, u64)>) -> (r: Vec<u8>)
        ensures
            r@ == file_answer(
                used,
                match info {
                    Some((name, size)) => Some((name@, size)),
                    None => None,
                },
            ),
    {
        match (used, info) {
            (FileUse::Describe, Some((name, size))) => format_data_response_bytes(
                file_group_descriptor(name.as_str(), size).as_slice(),
            ),
            (FileUse::Describe, None) => format_data_response_fail(),
            (FileUse::Size(id), Some((_, size))) => file_contents_response_size(id, size),
            (FileUse::Size(id), None) => file_contents_response_fail(id),
        }
    }

    /// A range of the offered file has been read, or not.
    pub fn on_range(stream_id: u32, bytes: Option<Vec<u8>>) -> (r: Vec<u8>)
        ensures
            r@ == range_answer(
                stream_id,
                match bytes {
                    Some(b) => Some(b@),
                    None => None,
                },
            ),
    {
        match bytes {
            Some(b) => file_contents_response_range(stream_id, b.as_slice()),
            None => file_contents_response_fail(stream_id),
        }
    }

    /// A text of the remote has been put on the clipboard.
    pub fn on_written(&mut self, text: String)
        ensures
            final(self)@ == old(self)@.written(text@),
    {
        self.known = Some(text);
    }
}

/// A text that came from the remote is not announced back to it.
pub proof fn law_remote_text_is_not_echoed(s: ClipState, text: Seq<char>)
    requires
        text.len() > 0,
    ensures
        s.written(text).polled(Some(text)) == (s.written(text), None::<Seq<u8>>),
{
}

/// Nothing is announced before the server is ready, and a text is announced once:
/// as long as the clipboard keeps it, polling is silent.
pub proof fn law_changes_are_announced_once(s: ClipState, text: Option<Seq<char>>)
    ensures
        !s.ready ==> s.polled(text) == (s, None::<Seq<u8>>),
        s.polled(text).0.polled(text).1 is None,
{
}

/// What one side sends in answer to a request for its text, the other side puts on
/// its clipboard: the same text, up to its first null character, at which the wire
/// format ends. If nothing is left of it, nothing is written.
pub proof fn law_text_reaches_the_other_side(from: ClipState, to: ClipState, text: Seq<char>)
    requires
        2 * utf16(text).len() + 2 <= 0xffff_ffff,
    ensures
        ({
            let sent = from.with_text(TextUse::Send, Some(text)).1;
            &&& sent.len() == 1
            &&& parsed(sent[0]) matches Some(pdu) && to.task(pdu) == (if before_null(text).len()
                > 0 {
                ClipTaskView::WriteText(before_null(text))
            } else {
                ClipTaskView::Reply(Seq::empty())
            })
        }),
        (forall|i: int| 0 <= i < text.len() ==> text[i] as u32 != 0) ==> before_null(text) == text,
{
    law_text_response_round_trip(text);
    law_refused_response_has_no_text();
    let read = ClipView::FormatDataResponse { ok: true, text: Some(before_null(text)) };
    let refused = ClipView::FormatDataResponse { ok: false, text: None };
    let sent = from.with_text(TextUse::Send, Some(text)).1;
    assert(parsed(sent[0]) == Some(
        if text.len() > 0 {
            read
        } else {
            refused
        },
    ));
    assert(to.task(refused) == ClipTaskView::Reply(Seq::empty()));
}

} // verus!
