//! Clipboard virtual-channel protocol (MS-RDPECLIP): text and file copy.
//!
//! Flows over the static virtual channel named `cliprdr`. A message is an
//! 8-byte header (type u16, flags u16, data length u32, all LE) followed by the
//! data. The handshake is:
//!
//! ```text
//!  server -> CB_CLIP_CAPS (optional) + CB_MONITOR_READY
//!  client -> CB_CLIP_CAPS + CB_FORMAT_LIST            (announce our formats)
//!  server -> CB_FORMAT_LIST_RESPONSE(ok)
//! ```
//!
//! Then either side announces a clipboard change with `CB_FORMAT_LIST`; the peer
//! pulls the data with `CB_FORMAT_DATA_REQUEST` and `CB_FORMAT_DATA_RESPONSE`.

use crate::text::{
    decode_utf16_lossy, encode_utf16, law_utf16_round_trip, lemma_char, lemma_utf16_front,
    lemma_utf16_no_null, units_of, utf16, utf16_lossy,
};
use crate::wire::{
    bytes16, bytes32, bytes64, le16_at, le32_at, lemma_bytes16, lemma_bytes32,
    lemma_unit_bytes, push_slice, push_u16, push_u32, push_u64, push_units, push_zeros, u16_at, u32_at, unit_bytes, zero_bytes,
};
use vstd::prelude::*;

verus! {

/// Standard clipboard format: Unicode (UTF-16LE) text.
pub const CF_UNICODETEXT: u32 = 13;

/// Standard clipboard format: text in the local code page.
pub const CF_TEXT: u32 = 1;

// Message types (MS-RDPECLIP 2.2.1).
pub const CB_MONITOR_READY: u16 = 0x0001;

pub const CB_FORMAT_LIST: u16 = 0x0002;

pub const CB_FORMAT_LIST_RESPONSE: u16 = 0x0003;

pub const CB_FORMAT_DATA_REQUEST: u16 = 0x0004;

pub const CB_FORMAT_DATA_RESPONSE: u16 = 0x0005;

pub const CB_CLIP_CAPS: u16 = 0x0007;

pub const CB_FILECONTENTS_REQUEST: u16 = 0x0008;

pub const CB_FILECONTENTS_RESPONSE: u16 = 0x0009;

// Message flags.
pub const CB_RESPONSE_OK: u16 = 0x0001;

pub const CB_RESPONSE_FAIL: u16 = 0x0002;

pub const CB_ASCII_NAMES: u16 = 0x0004;

// FileContents request flags.
pub const FILECONTENTS_SIZE: u32 = 0x0001;

pub const FILECONTENTS_RANGE: u32 = 0x0002;

/// Our advertised format id for the registered "FileGroupDescriptorW" format
/// (the peer maps the long name to this id). Any value works; the receiver
/// requests data by this id.
pub const CF_FILEGROUPDESCRIPTORW: u32 = 0xC0DE;

/// A decoded inbound clipboard PDU (only the variants we act on).
#[derive(Debug, Clone)]
pub enum ClipPdu {
    MonitorReady,
    Capabilities,
    /// Peer announced its available formats; `has_text` is true if it offers
    /// `CF_UNICODETEXT` (or `CF_TEXT`).
    FormatList { has_text: bool },
    FormatListResponse { ok: bool },
    /// Peer wants the data for `format_id` (we should reply with a data response).
    FormatDataRequest { format_id: u32 },
    /// Peer sent the requested data; `text` is decoded if the response is ok.
    FormatDataResponse { ok: bool, text: Option<String> },
    /// Peer requested a chunk of a file we offered (for file transfer).
    FileContentsRequest {
        stream_id: u32,
        lindex: u32,
        size_only: bool,
        position: u64,
        requested: u32,
    },
    /// Any other message type we don't handle.
    Other { msg_type: u16 },
}

/// What a clipboard PDU says.
#[verifier::ext_equal]
pub enum ClipView {
    MonitorReady,
    Capabilities,
    FormatList { has_text: bool },
    FormatListResponse { ok: bool },
    FormatDataRequest { format_id: u32 },
    FormatDataResponse { ok: bool, text: Option<Seq<char>> },
    FileContentsRequest {
        stream_id: u32,
        lindex: u32,
        size_only: bool,
        position: u64,
        requested: u32,
    },
    Other { msg_type: u16 },
}

impl View for ClipPdu {
    type V = ClipView;

    open spec fn view(&self) -> ClipView {
        match *self {
            ClipPdu::MonitorReady => ClipView::MonitorReady,
            ClipPdu::Capabilities => ClipView::Capabilities,
            ClipPdu::FormatList { has_text } => ClipView::FormatList { has_text },
            ClipPdu::FormatListResponse { ok } => ClipView::FormatListResponse { ok },
            ClipPdu::FormatDataRequest { format_id } => ClipView::FormatDataRequest { format_id },
            ClipPdu::FormatDataResponse { ok, text } => ClipView::FormatDataResponse {
                ok,
                text: match text {
                    Some(s) => Some(s@),
                    None => None,
                },
            },
            ClipPdu::FileContentsRequest { stream_id, lindex, size_only, position, requested } =>
                ClipView::FileContentsRequest { stream_id, lindex, size_only, position, requested },
            ClipPdu::Other { msg_type } => ClipView::Other { msg_type },
        }
    }
}

/// What kinds of data a format list offers.
#[derive(Debug, Clone, Copy)]
pub struct FormatListKinds {
    pub has_text: bool,
    pub has_files: bool,
}

impl Default for FormatListKinds {
    fn default() -> (r: Self)
        ensures
            r == (FormatListKinds { has_text: false, has_files: false }),
    {
        FormatListKinds { has_text: false, has_files: false }
    }
}

/// A clipboard message: the header, then the data.
pub open spec fn message(msg_type: u16, msg_flags: u16, data: Seq<u8>) -> Seq<u8> {
    bytes16(msg_type) + bytes16(msg_flags) + bytes32(data.len() as u32) + data
}

/// Build a clipboard message.
pub fn header(msg_type: u16, msg_flags: u16, data: &[u8]) -> (v: Vec<u8>)
    ensures
        v@ == message(msg_type, msg_flags, data@),
{
    let mut v: Vec<u8> = Vec::new();
    push_u16(&mut v, msg_type);
    push_u16(&mut v, msg_flags);
    push_u32(&mut v, data.len() as u32);
    push_slice(&mut v, data);
    assert(v@ =~= message(msg_type, msg_flags, data@));
    v
}

/// The data of a capabilities message with one general capability set.
pub open spec fn general_capability(flags: u32) -> Seq<u8> {
    bytes16(1) + bytes16(0) + bytes16(1) + bytes16(12) + bytes32(2) + bytes32(flags)
}

fn general_capability_set(flags: u32) -> (body: Vec<u8>)
    ensures
        body@ == general_capability(flags),
{
    let mut body: Vec<u8> = Vec::new();
    push_u16(&mut body, 1);  // number of capability sets
    push_u16(&mut body, 0);  // pad
    push_u16(&mut body, 1);  // type: general
    push_u16(&mut body, 12);  // length
    push_u32(&mut body, 2);  // version 2
    push_u32(&mut body, flags);
    assert(body@ =~= general_capability(flags));
    body
}

/// Build a Clipboard Capabilities PDU advertising a single General capability
/// set with no special flags (short format names, text only).
pub fn capabilities() -> (v: Vec<u8>)
    ensures
        v@ == message(CB_CLIP_CAPS, 0, general_capability(0)),
{
    header(CB_CLIP_CAPS, 0, general_capability_set(0).as_slice())
}

/// Build a Format List PDU (short format names). If `with_text` is true we
/// announce `CF_UNICODETEXT`; otherwise the list is empty (we hold nothing).
pub fn format_list_text(with_text: bool) -> (v: Vec<u8>)
    ensures
        v@ == message(CB_FORMAT_LIST, 0, short_text_list(with_text)),
{
    let mut body: Vec<u8> = Vec::new();
    if with_text {
        push_u32(&mut body, CF_UNICODETEXT);
        push_zeros(&mut body, 32);
    }
    assert(body@ =~= short_text_list(with_text));
    header(CB_FORMAT_LIST, 0, body.as_slice())
}

/// A list of short format names that holds Unicode text or nothing: a format id
/// and a 32-byte name, empty for a standard format.
pub open spec fn short_text_list(with_text: bool) -> Seq<u8> {
    if with_text {
        bytes32(CF_UNICODETEXT) + zero_bytes(32)
    } else {
        Seq::empty()
    }
}

/// Build a Format List Response PDU (success).
pub fn format_list_response_ok() -> (v: Vec<u8>)
    ensures
        v@ == message(CB_FORMAT_LIST_RESPONSE, CB_RESPONSE_OK, Seq::empty()),
{
    let none: Vec<u8> = Vec::new();
    header(CB_FORMAT_LIST_RESPONSE, CB_RESPONSE_OK, none.as_slice())
}

/// Build a Format Data Request PDU for `format_id`.
pub fn format_data_request(format_id: u32) -> (v: Vec<u8>)
    ensures
        v@ == message(CB_FORMAT_DATA_REQUEST, 0, bytes32(format_id)),
{
    let mut body: Vec<u8> = Vec::new();
    push_u32(&mut body, format_id);
    assert(body@ =~= bytes32(format_id));
    header(CB_FORMAT_DATA_REQUEST, 0, body.as_slice())
}

/// A text as clipboard data: UTF-16LE and a null unit.
pub open spec fn text_data(text: Seq<char>) -> Seq<u8> {
    unit_bytes(utf16(text)) + bytes16(0)
}

/// Build a Format Data Response PDU carrying `text` as `CF_UNICODETEXT`
/// (UTF-16LE, null-terminated).
pub fn format_data_response_text(text: &str) -> (v: Vec<u8>)
    ensures
        v@ == message(CB_FORMAT_DATA_RESPONSE, CB_RESPONSE_OK, text_data(text@)),
{
    let mut data: Vec<u8> = Vec::new();
    push_units(&mut data, encode_utf16(text).as_slice());
    push_u16(&mut data, 0);
    assert(data@ =~= text_data(text@));
    header(CB_FORMAT_DATA_RESPONSE, CB_RESPONSE_OK, data.as_slice())
}

/// Build a failed Format Data Response PDU (we had nothing to give).
pub fn format_data_response_fail() -> (v: Vec<u8>)
    ensures
        v@ == message(CB_FORMAT_DATA_RESPONSE, CB_RESPONSE_FAIL, Seq::empty()),
{
    let none: Vec<u8> = Vec::new();
    header(CB_FORMAT_DATA_RESPONSE, CB_RESPONSE_FAIL, none.as_slice())
}

/// Generic Format Data Response carrying raw bytes (e.g. a file group descriptor).
pub fn format_data_response_bytes(data: &[u8]) -> (v: Vec<u8>)
    ensures
        v@ == message(CB_FORMAT_DATA_RESPONSE, CB_RESPONSE_OK, data@),
{
    header(CB_FORMAT_DATA_RESPONSE, CB_RESPONSE_OK, data)
}

// ---- File transfer (MS-RDPECLIP file copy) ----

/// Long format names (0x02), stream-based file clipboard (0x04), no file paths
/// (0x08).
pub const FILE_CAPABILITY_FLAGS: u32 = 0x0E;

/// Capabilities advertising long format names + stream-based file clipboard
/// (required so we can advertise the registered "FileGroupDescriptorW" format).
pub fn capabilities_files() -> (v: Vec<u8>)
    ensures
        v@ == message(CB_CLIP_CAPS, 0, general_capability(FILE_CAPABILITY_FLAGS)),
{
    header(CB_CLIP_CAPS, 0, general_capability_set(FILE_CAPABILITY_FLAGS).as_slice())
}

/// A list of long format names: each a format id and a null-terminated UTF-16LE
/// name.
pub open spec fn long_list(formats: Seq<(u32, &str)>) -> Seq<u8>
    decreases formats.len(),
{
    if formats.len() == 0 {
        Seq::empty()
    } else {
        long_list(formats.drop_last()) + bytes32(formats.last().0) + text_data(formats.last().1@)
    }
}

/// Format List using LONG format names. `formats` = (formatId, name) pairs; a
/// standard format (e.g. CF_UNICODETEXT) uses an empty name.
pub fn format_list_long(formats: &[(u32, &str)]) -> (v: Vec<u8>)
    ensures
        v@ == message(CB_FORMAT_LIST, 0, long_list(formats@)),
{
    let mut body: Vec<u8> = Vec::new();
    let mut i: usize = 0;
    assert(formats@.take(0) =~= Seq::<(u32, &str)>::empty());
    while i < formats.len()
        invariant
            i <= formats@.len(),
            body@ == long_list(formats@.take(i as int)),
        decreases formats@.len() - i,
    {
        let (id, name) = formats[i];
        push_u32(&mut body, id);
        push_units(&mut body, encode_utf16(name).as_slice());
        push_u16(&mut body, 0);
        i = i + 1;
        proof {
            let t = formats@.take(i as int);
            assert(t.drop_last() =~= formats@.take(i - 1));
            assert(t.last() == formats@[i - 1]);
            assert(body@ =~= long_list(t));
        }
    }
    assert(formats@.take(i as int) =~= formats@);
    header(CB_FORMAT_LIST, 0, body.as_slice())
}

/// Descriptor flags: attributes (0x04) and file size (0x40) are valid.
pub const FD_ATTRIBUTES_AND_SIZE: u32 = 0x44;

pub const FILE_ATTRIBUTE_NORMAL: u32 = 0x80;

/// The name field of a descriptor: at most 259 units, null-padded to 520 bytes.
pub open spec fn name_field(name: Seq<char>) -> Seq<u8> {
    let u = utf16(name);
    let units = if u.len() <= 259 {
        u
    } else {
        u.take(259)
    };
    unit_bytes(units) + zero_bytes((520 - 2 * units.len()) as nat)
}

/// A group descriptor of one file: the count, then the 592-byte descriptor.
pub open spec fn group_descriptor(name: Seq<char>, size: u64) -> Seq<u8> {
    bytes32(1) + bytes32(FD_ATTRIBUTES_AND_SIZE) + zero_bytes(32) + bytes32(FILE_ATTRIBUTE_NORMAL)
        + zero_bytes(16) + zero_bytes(8) + bytes32((size / 0x1_0000_0000) as u32) + bytes32(
        (size % 0x1_0000_0000) as u32,
    ) + name_field(name)
}

/// Build a `FILEGROUPDESCRIPTORW` (one file): item count + a 592-byte descriptor.
pub fn file_group_descriptor(name: &str, size: u64) -> (v: Vec<u8>)
    ensures
        v@ == group_descriptor(name@, size),
        v@.len() == 4 + 592,
{
    let mut v: Vec<u8> = Vec::new();
    push_u32(&mut v, 1);  // item count
    push_u32(&mut v, FD_ATTRIBUTES_AND_SIZE);  // flags
    push_zeros(&mut v, 32);  // reserved
    push_u32(&mut v, FILE_ATTRIBUTE_NORMAL);  // attributes
    push_zeros(&mut v, 16);  // reserved
    push_zeros(&mut v, 8);  // last write time
    push_u32(&mut v, (size / 0x1_0000_0000) as u32);  // size, high half
    push_u32(&mut v, (size % 0x1_0000_0000) as u32);  // size, low half
    let mut units: Vec<u16> = encode_utf16(name);
    if units.len() > 259 {
        units.truncate(259);
    }
    proof {
        lemma_unit_bytes(units@);
    }
    push_units(&mut v, units.as_slice());
    push_zeros(&mut v, 520 - 2 * units.len());
    assert(v@ =~= group_descriptor(name@, size));
    v
}

/// FileContents response carrying the file's total size (reply to a SIZE request).
pub fn file_contents_response_size(stream_id: u32, size: u64) -> (v: Vec<u8>)
    ensures
        v@ == message(
            CB_FILECONTENTS_RESPONSE,
            CB_RESPONSE_OK,
            bytes32(stream_id) + bytes64(size),
        ),
{
    let mut data: Vec<u8> = Vec::new();
    push_u32(&mut data, stream_id);
    push_u64(&mut data, size);
    assert(data@ =~= bytes32(stream_id) + bytes64(size));
    header(CB_FILECONTENTS_RESPONSE, CB_RESPONSE_OK, data.as_slice())
}

/// FileContents response carrying a range of file bytes (reply to a RANGE request).
pub fn file_contents_response_range(stream_id: u32, bytes: &[u8]) -> (v: Vec<u8>)
    ensures
        v@ == message(CB_FILECONTENTS_RESPONSE, CB_RESPONSE_OK, bytes32(stream_id) + bytes@),
{
    let mut data: Vec<u8> = Vec::new();
    push_u32(&mut data, stream_id);
    push_slice(&mut data, bytes);
    assert(data@ =~= bytes32(stream_id) + bytes@);
    header(CB_FILECONTENTS_RESPONSE, CB_RESPONSE_OK, data.as_slice())
}

/// Failed FileContents response.
pub fn file_contents_response_fail(stream_id: u32) -> (v: Vec<u8>)
    ensures
        v@ == message(CB_FILECONTENTS_RESPONSE, CB_RESPONSE_FAIL, bytes32(stream_id)),
{
    let mut data: Vec<u8> = Vec::new();
    push_u32(&mut data, stream_id);
    assert(data@ =~= bytes32(stream_id));
    header(CB_FILECONTENTS_RESPONSE, CB_RESPONSE_FAIL, data.as_slice())
}

/// Whether the format id at `i` is a text format.
pub open spec fn text_id_at(data: Seq<u8>, i: int) -> bool {
    i + 4 <= data.len() && (le32_at(data, i) == CF_UNICODETEXT || le32_at(data, i) == CF_TEXT)
}

/// The end of the null-terminated UTF-16 name at `i`: the place of the null
/// unit, or the first place where no whole unit is left.
pub open spec fn name_end(data: Seq<u8>, i: int) -> int
    decreases data.len() - i,
{
    if i + 2 <= data.len() && !(data[i] == 0 && data[i + 1] == 0) {
        name_end(data, i + 2)
    } else {
        i
    }
}

/// Whether a list of long format names, from `i` on, holds a text format.
pub open spec fn long_has_text(data: Seq<u8>, i: int) -> bool
    decreases data.len() + 2 - i,
    when 0 <= i
{
    if i + 4 > data.len() {
        false
    } else if text_id_at(data, i) {
        true
    } else {
        proof {
            lemma_name_end(data, i + 4);
        }
        long_has_text(data, name_end(data, i + 4) + 2)
    }
}

pub proof fn lemma_name_end(data: Seq<u8>, i: int)
    ensures
        i <= name_end(data, i),
        i <= data.len() ==> name_end(data, i) <= data.len(),
    decreases data.len() - i,
{
    if i + 2 <= data.len() && !(data[i] == 0 && data[i + 1] == 0) {
        lemma_name_end(data, i + 2);
    }
}

/// Whether a list of short format names holds a text format: entries are 36
/// bytes each, the format id first.
pub open spec fn short_has_text(data: Seq<u8>) -> bool {
    exists|k: int| 0 <= k && #[trigger] entry_is_text(data, k)
}

/// Whether the short entry number `k` is a text format.
pub open spec fn entry_is_text(data: Seq<u8>, k: int) -> bool {
    text_id_at(data, 36 * k)
}

/// Whether a format list offers text. A list is taken for long names unless it
/// is flagged as ASCII, is empty or has the length of short entries.
pub open spec fn list_has_text(data: Seq<u8>, msg_flags: u16) -> bool {
    if msg_flags & CB_ASCII_NAMES == 0 && data.len() % 36 != 0 {
        long_has_text(data, 0)
    } else {
        short_has_text(data)
    }
}

/// The units up to the first null unit.
pub open spec fn until_null(u: Seq<u16>) -> Seq<u16>
    decreases u.len(),
{
    if u.len() == 0 || u[0] == 0 {
        Seq::empty()
    } else {
        seq![u[0]] + until_null(u.skip(1))
    }
}

/// The whole UTF-16 units of some bytes.
pub open spec fn whole_units(data: Seq<u8>) -> Seq<u16> {
    Seq::new((data.len() / 2) as nat, |i: int| le16_at(data, 2 * i))
}

/// The text of clipboard data: UTF-16LE up to a null unit, if there is one.
pub open spec fn data_text(data: Seq<u8>) -> Seq<char> {
    utf16_lossy(until_null(whole_units(data)))
}

/// The data of a message: as much as its header announces, or as there is.
pub open spec fn data_of(payload: Seq<u8>) -> Seq<u8> {
    let n = le32_at(payload, 4);
    payload.subrange(
        8,
        if 8 + n <= payload.len() {
            8 + n
        } else {
            payload.len() as int
        },
    )
}

/// What an inbound clipboard PDU says; nothing if it has no whole header.
pub open spec fn parsed(payload: Seq<u8>) -> Option<ClipView> {
    if payload.len() < 8 {
        None
    } else {
        let msg_type = le16_at(payload, 0);
        let msg_flags = le16_at(payload, 2);
        let data = data_of(payload);
        Some(
            if msg_type == CB_MONITOR_READY {
                ClipView::MonitorReady
            } else if msg_type == CB_CLIP_CAPS {
                ClipView::Capabilities
            } else if msg_type == CB_FORMAT_LIST {
                ClipView::FormatList { has_text: list_has_text(data, msg_flags) }
            } else if msg_type == CB_FORMAT_LIST_RESPONSE {
                ClipView::FormatListResponse { ok: msg_flags & CB_RESPONSE_OK != 0 }
            } else if msg_type == CB_FORMAT_DATA_REQUEST {
                ClipView::FormatDataRequest {
                    format_id: if data.len() >= 4 {
                        le32_at(data, 0)
                    } else {
                        0
                    },
                }
            } else if msg_type == CB_FORMAT_DATA_RESPONSE {
                ClipView::FormatDataResponse {
                    ok: msg_flags & CB_RESPONSE_OK != 0,
                    text: if msg_flags & CB_RESPONSE_OK != 0 {
                        Some(data_text(data))
                    } else {
                        None
                    },
                }
            } else if msg_type == CB_FILECONTENTS_REQUEST && data.len() >= 24 {
                ClipView::FileContentsRequest {
                    stream_id: le32_at(data, 0),
                    lindex: le32_at(data, 4),
                    size_only: le32_at(data, 8) & FILECONTENTS_SIZE != 0,
                    position: (le32_at(data, 12) + 0x1_0000_0000 * le32_at(data, 16)) as u64,
                    requested: le32_at(data, 20),
                }
            } else {
                ClipView::Other { msg_type }
            },
        )
    }
}

/// Parse one inbound clipboard PDU. Returns `None` if the buffer is too short.
pub fn parse(payload: &[u8]) -> (r: Option<ClipPdu>)
    ensures
        match r {
            Some(p) => parsed(payload@) == Some(p@),
            None => parsed(payload@) is None,
        },
{
    if payload.len() < 8 {
        return None;
    }
    let msg_type: u16 = u16_at(payload, 0);
    let msg_flags: u16 = u16_at(payload, 2);
    let announced: u32 = u32_at(payload, 4);
    let end: usize = if (payload.len() - 8) as u64 >= announced as u64 {
        8 + announced as usize
    } else {
        payload.len()
    };
    let data: &[u8] = vstd::slice::slice_subrange(payload, 8, end);
    Some(
        match msg_type {
            CB_MONITOR_READY => ClipPdu::MonitorReady,
            CB_CLIP_CAPS => ClipPdu::Capabilities,
            CB_FORMAT_LIST => ClipPdu::FormatList {
                has_text: scan_for_text_format(data, msg_flags),
            },
            CB_FORMAT_LIST_RESPONSE => ClipPdu::FormatListResponse {
                ok: msg_flags & CB_RESPONSE_OK != 0,
            },
            CB_FORMAT_DATA_REQUEST => ClipPdu::FormatDataRequest {
                format_id: if data.len() >= 4 {
                    u32_at(data, 0)
                } else {
                    0
                },
            },
            CB_FORMAT_DATA_RESPONSE => {
                let ok: bool = msg_flags & CB_RESPONSE_OK != 0;
                let text: Option<String> = if ok {
                    Some(decode_unicode_text(data))
                } else {
                    None
                };
                ClipPdu::FormatDataResponse { ok, text }
            },
            CB_FILECONTENTS_REQUEST if data.len() >= 24 => ClipPdu::FileContentsRequest {
                stream_id: u32_at(data, 0),
                lindex: u32_at(data, 4),
                size_only: u32_at(data, 8) & FILECONTENTS_SIZE != 0,
                position: u32_at(data, 12) as u64 + 0x1_0000_0000 * u32_at(data, 16) as u64,
                requested: u32_at(data, 20),
            },
            other => ClipPdu::Other { msg_type: other },
        },
    )
}

fn is_text_id(data: &[u8], i: usize) -> (r: bool)
    requires
        i + 4 <= data@.len(),
    ensures
        r == text_id_at(data@, i as int),
{
    let id: u32 = u32_at(data, i);
    id == CF_UNICODETEXT || id == CF_TEXT
}

/// True if the Format List body advertises CF_UNICODETEXT (13) or CF_TEXT (1).
/// Handles both short (4 + 32 bytes/entry) and long (4 + null-terminated UTF-16
/// name) format-name layouts by just scanning the leading format ids.
fn scan_for_text_format(data: &[u8], msg_flags: u16) -> (r: bool)
    ensures
        r == list_has_text(data@, msg_flags),
{
    if msg_flags & CB_ASCII_NAMES == 0 && data.len() % 36 != 0 {
        scan_long_names(data)
    } else {
        scan_short_names(data)
    }
}

fn scan_short_names(data: &[u8]) -> (r: bool)
    ensures
        r == short_has_text(data@),
{
    let mut i: usize = 0;
    let ghost mut n: int = 0;
    while data.len() - i >= 4
        invariant
            0 <= n,
            i == 36 * n,
            i <= data@.len(),
            forall|k: int| 0 <= k < n ==> !#[trigger] entry_is_text(data@, k),
        decreases data@.len() - i,
    {
        if is_text_id(data, i) {
            assert(entry_is_text(data@, n));
            return true;
        }
        if data.len() - i < 36 {
            assert forall|k: int| 0 <= k implies !#[trigger] entry_is_text(data@, k) by {
                if k == n {
                    assert(!text_id_at(data@, i as int));
                }
            }
            return false;
        }
        i = i + 36;
        proof {
            n = n + 1;
        }
    }
    assert forall|k: int| 0 <= k implies !#[trigger] entry_is_text(data@, k) by {}
    false
}

fn scan_long_names(data: &[u8]) -> (r: bool)
    ensures
        r == long_has_text(data@, 0),
{
    let mut i: usize = 0;
    while data.len() - i >= 4
        invariant
            i <= data@.len(),
            long_has_text(data@, 0) == long_has_text(data@, i as int),
        decreases data@.len() - i,
    {
        if is_text_id(data, i) {
            return true;
        }
        let ghost start = i + 4;
        let mut j: usize = i + 4;
        while data.len() - j >= 2 && !(data[j] == 0 && data[j + 1] == 0)
            invariant
                start <= j <= data@.len(),
                name_end(data@, start) == name_end(data@, j as int),
            decreases data@.len() - j,
        {
            j = j + 2;
        }
        proof {
            lemma_name_end(data@, start);
        }
        if data.len() - j < 2 {
            assert(name_end(data@, start) == j);
            assert(!long_has_text(data@, j + 2));
            return false;
        }
        i = j + 2;
    }
    false
}

/// Decode a CF_UNICODETEXT data blob (UTF-16LE, possibly null-terminated).
fn decode_unicode_text(data: &[u8]) -> (r: String)
    ensures
        r@ == data_text(data@),
{
    let mut units: Vec<u16> = Vec::new();
    let mut i: usize = 0;
    let ghost all = whole_units(data@);
    assert(all.skip(0) =~= all);
    assert(units@ + until_null(all) =~= until_null(all));
    while data.len() - i >= 2
        invariant
            all == whole_units(data@),
            i <= data@.len(),
            i % 2 == 0,
            until_null(all) == units@ + until_null(all.skip(i as int / 2)),
        decreases data@.len() - i,
    {
        let u: u16 = u16_at(data, i);
        let ghost rest = all.skip(i as int / 2);
        assert(rest[0] == all[i as int / 2]);
        if u == 0 {
            assert(until_null(all) =~= units@);
            return decode_utf16_lossy(units.as_slice());
        }
        assert(rest.skip(1) =~= all.skip(i as int / 2 + 1));
        let ghost before = units@;
        units.push(u);
        i = i + 2;
        assert(before + (seq![u] + until_null(rest.skip(1))) =~= units@ + until_null(
            rest.skip(1),
        ));
    }
    assert(all.skip(i as int / 2) =~= Seq::<u16>::empty());
    assert(until_null(all) =~= units@);
    decode_utf16_lossy(units.as_slice())
}

/// The parts of a message come back out of it.
proof fn lemma_message(msg_type: u16, msg_flags: u16, data: Seq<u8>)
    requires
        data.len() <= 0xffff_ffff,
    ensures
        ({
            let m = message(msg_type, msg_flags, data);
            m.len() == 8 + data.len() && le16_at(m, 0) == msg_type && le16_at(m, 2) == msg_flags
                && data_of(m) == data
        }),
{
    let m = message(msg_type, msg_flags, data);
    let n = data.len() as u32;
    let t = bytes16(msg_type);
    let f = bytes16(msg_flags);
    let b = bytes32(n);
    assert(t.len() == 2 && f.len() == 2 && b.len() == 4);
    assert(m.len() == 8 + data.len());
    assert(m[0] == t[0] && m[1] == t[1] && m[2] == f[0] && m[3] == f[1]);
    assert(m[4] == b[0] && m[5] == b[1] && m[6] == b[2] && m[7] == b[3]);
    assert(le16_at(m, 0) == msg_type) by {
        lemma_bytes16(msg_type);
    }
    assert(le16_at(m, 2) == msg_flags) by {
        lemma_bytes16(msg_flags);
    }
    assert(le32_at(m, 4) == n) by {
        lemma_bytes32(n);
    }
    assert(data_of(m) =~= data);
}

/// The text up to its first null character.
pub open spec fn before_null(s: Seq<char>) -> Seq<char>
    decreases s.len(),
{
    if s.len() == 0 || s[0] as u32 == 0 {
        Seq::empty()
    } else {
        seq![s[0]] + before_null(s.skip(1))
    }
}

proof fn lemma_before_null(s: Seq<char>)
    requires
        forall|i: int| 0 <= i < s.len() ==> s[i] as u32 != 0,
    ensures
        before_null(s) == s,
    decreases s.len(),
{
    if s.len() > 0 {
        assert(s[0] as u32 != 0);
        lemma_before_null(s.skip(1));
        assert(seq![s[0]] + s.skip(1) =~= s);
    }
}

/// The units of a text up to the first null unit are those of the text up to its
/// first null character.
proof fn lemma_until_null(s: Seq<char>)
    ensures
        until_null(utf16(s) + seq![0u16]) == utf16(before_null(s)),
    decreases s.len(),
{
    let all = utf16(s) + seq![0u16];
    if s.len() == 0 {
        assert(all =~= seq![0u16]);
    } else {
        let c = s[0];
        let rest = utf16(s.skip(1)) + seq![0u16];
        lemma_char(c);
        lemma_utf16_front(s);
        assert(all =~= units_of(c) + rest);
        if c as u32 == 0 {
            assert(all[0] == 0);
        } else {
            lemma_until_null(s.skip(1));
            lemma_utf16_front(before_null(s));
            assert(before_null(s).skip(1) =~= before_null(s.skip(1)));
            if c as int <= 0xFFFF {
                assert(all.skip(1) =~= rest);
            } else {
                let tail = all.skip(1);
                assert(all[0] != 0 && tail[0] == all[1] && all[1] != 0);
                assert(tail.skip(1) =~= rest);
                assert(until_null(tail) == seq![all[1]] + until_null(rest));
            }
            assert(until_null(all) =~= units_of(c) + until_null(rest));
        }
    }
}

/// Text that one side answers with is the text that the other side reads: all of it,
/// or what stands before its first null character.
pub proof fn law_text_response_round_trip(text: Seq<char>)
    requires
        2 * utf16(text).len() + 2 <= 0xffff_ffff,
    ensures
        parsed(message(CB_FORMAT_DATA_RESPONSE, CB_RESPONSE_OK, text_data(text))) == Some(
            ClipView::FormatDataResponse { ok: true, text: Some(before_null(text)) },
        ),
        (forall|i: int| 0 <= i < text.len() ==> text[i] as u32 != 0) ==> before_null(text) == text,
{
    let u = utf16(text);
    lemma_unit_bytes(u);
    lemma_message(CB_FORMAT_DATA_RESPONSE, CB_RESPONSE_OK, text_data(text));
    assert(CB_RESPONSE_OK & CB_RESPONSE_OK != 0) by (bit_vector);
    let data = text_data(text);
    assert(whole_units(data) =~= u + seq![0u16]) by {
        assert forall|k: int| 0 <= k < u.len() + 1 implies whole_units(data)[k] == (u
            + seq![0u16])[k] by {
            if k < u.len() {
                assert(data[2 * k] == unit_bytes(u)[2 * k]);
                assert(data[2 * k + 1] == unit_bytes(u)[2 * k + 1]);
                assert(u[k] == le16_at(unit_bytes(u), 2 * k));
            } else {
                assert(data[2 * k] == bytes16(0)[0]);
                assert(data[2 * k + 1] == bytes16(0)[1]);
            }
        }
    }
    lemma_until_null(text);
    law_utf16_round_trip(before_null(text));
    if forall|i: int| 0 <= i < text.len() ==> text[i] as u32 != 0 {
        lemma_before_null(text);
    }
}

/// A refusal is read as one.
pub proof fn law_refused_response_has_no_text()
    ensures
        parsed(message(CB_FORMAT_DATA_RESPONSE, CB_RESPONSE_FAIL, Seq::empty())) == Some(
            ClipView::FormatDataResponse { ok: false, text: None },
        ),
{
    lemma_message(CB_FORMAT_DATA_RESPONSE, CB_RESPONSE_FAIL, Seq::empty());
    assert(CB_RESPONSE_FAIL & CB_RESPONSE_OK == 0) by (bit_vector);
}

/// Whether a format id is one of text.
pub open spec fn is_text_format(id: u32) -> bool {
    id == CF_UNICODETEXT || id == CF_TEXT
}

/// Whether one of the formats is text.
pub open spec fn offers_text(formats: Seq<(u32, &str)>) -> bool {
    exists|k: int| 0 <= k < formats.len() && is_text_format((#[trigger] formats[k]).0)
}

/// A list of long names that is built is read back with text exactly when one of its
/// formats is text, wherever it stands and whatever the names are. Left out are names
/// with a null character, at which a name ends, and lists whose length is that of
/// short entries, for which they are then taken.
pub proof fn law_long_list_is_read_back(formats: Seq<(u32, &str)>)
    requires
        forall|k: int, i: int|
            0 <= k < formats.len() && 0 <= i < formats[k].1@.len()
                ==> #[trigger] formats[k].1@[i] as u32 != 0,
        long_list(formats).len() <= 0xffff_ffff,
        long_list(formats).len() % 36 != 0,
    ensures
        parsed(message(CB_FORMAT_LIST, 0, long_list(formats))) == Some(
            ClipView::FormatList { has_text: offers_text(formats) },
        ),
{
    let data = long_list(formats);
    lemma_message(CB_FORMAT_LIST, 0, data);
    assert(0u16 & CB_ASCII_NAMES == 0) by (bit_vector);
    lemma_long_list(formats, 0);
    assert(formats.take(0) =~= Seq::<(u32, &str)>::empty());
    assert(formats.skip(0) =~= formats);
}

/// The bytes of the formats before a place stand before those of the formats behind.
proof fn lemma_long_list_prefix(formats: Seq<(u32, &str)>, n: int)
    requires
        0 <= n <= formats.len(),
    ensures
        long_list(formats.take(n)).len() <= long_list(formats).len(),
        long_list(formats).take(long_list(formats.take(n)).len() as int) == long_list(
            formats.take(n),
        ),
    decreases formats.len(),
{
    if n == formats.len() {
        assert(formats.take(n) =~= formats);
    } else {
        let f = formats.drop_last();
        lemma_long_list_prefix(f, n);
        assert(f.take(n) =~= formats.take(n));
        let m = long_list(formats.take(n)).len() as int;
        assert(long_list(formats).take(m) =~= long_list(f).take(m));
    }
}

/// Reading on from the format number `n` finds text exactly if one is left.
proof fn lemma_long_list(formats: Seq<(u32, &str)>, n: int)
    requires
        0 <= n <= formats.len(),
        forall|k: int, i: int|
            0 <= k < formats.len() && 0 <= i < formats[k].1@.len()
                ==> #[trigger] formats[k].1@[i] as u32 != 0,
    ensures
        long_has_text(long_list(formats), long_list(formats.take(n)).len() as int) == offers_text(
            formats.skip(n),
        ),
    decreases formats.len() - n,
{
    let data = long_list(formats);
    let at = long_list(formats.take(n)).len() as int;
    if n == formats.len() {
        assert(formats.take(n) =~= formats);
    } else {
        let (id, name) = formats[n];
        let u = utf16(name@);
        let next = formats.take(n + 1);
        assert(next.drop_last() =~= formats.take(n));
        assert(next.last() == formats[n]);
        lemma_long_list_prefix(formats, n + 1);
        lemma_unit_bytes(u);
        lemma_bytes32(id);
        let entry = long_list(next);
        assert(entry.len() == at + 4 + 2 * u.len() + 2);
        assert forall|i: int| 0 <= i < entry.len() implies data[i] == #[trigger] entry[i] by {
            assert(data.take(entry.len() as int)[i] == data[i]);
        }
        assert(forall|i: int| 0 <= i < 4 ==> #[trigger] entry[at + i] == bytes32(id)[i]);
        assert(entry[at] == bytes32(id)[0] && entry[at + 1] == bytes32(id)[1] && entry[at + 2]
            == bytes32(id)[2] && entry[at + 3] == bytes32(id)[3]);
        assert(le32_at(data, at) == id);
        assert forall|k: int| 0 <= k < u.len() implies #[trigger] le16_at(
            data,
            at + 4 + 2 * k,
        ) == u[k] by {
            assert(entry[at + 4 + 2 * k] == unit_bytes(u)[2 * k]);
            assert(entry[at + 4 + 2 * k + 1] == unit_bytes(u)[2 * k + 1]);
        }
        let z = at + 4 + 2 * u.len();
        assert(entry[z] == bytes16(0)[0] && entry[z + 1] == bytes16(0)[1]);
        assert(data[z] == 0 && data[z + 1] == 0);
        assert forall|i: int| 0 <= i < name@.len() implies name@[i] as u32 != 0 by {
            assert(formats[n].1@[i] as u32 != 0);
        }
        lemma_utf16_no_null(name@);
        lemma_name_ends(data, at + 4, u, 0);
        assert(name_end(data, at + 4) + 2 == entry.len());
        lemma_long_list(formats, n + 1);
        let left = formats.skip(n);
        assert(left.skip(1) =~= formats.skip(n + 1));
        if is_text_format(id) {
            assert(left[0] == formats[n]);
        } else if offers_text(left) {
            let k = choose|k: int| 0 <= k < left.len() && is_text_format((#[trigger] left[k]).0);
            assert(formats.skip(n + 1)[k - 1] == left[k]);
        } else if offers_text(formats.skip(n + 1)) {
            let k = choose|k: int|
                0 <= k < formats.skip(n + 1).len() && is_text_format(
                    (#[trigger] formats.skip(n + 1)[k]).0,
                );
            assert(left[k + 1] == formats.skip(n + 1)[k]);
        }
    }
}

/// A name of units that are not null ends at the null unit behind them.
proof fn lemma_name_ends(data: Seq<u8>, i: int, u: Seq<u16>, k: int)
    requires
        0 <= i,
        0 <= k <= u.len(),
        i + 2 * u.len() + 2 <= data.len(),
        forall|j: int| 0 <= j < u.len() ==> u[j] != 0,
        forall|j: int| 0 <= j < u.len() ==> #[trigger] le16_at(data, i + 2 * j) == u[j],
        data[i + 2 * u.len()] == 0,
        data[i + 2 * u.len() + 1] == 0,
    ensures
        name_end(data, i + 2 * k) == i + 2 * u.len(),
    decreases u.len() - k,
{
    if k < u.len() {
        assert(le16_at(data, i + 2 * k) == u[k]);
        lemma_name_ends(data, i, u, k + 1);
    }
}

/// A list that announces text is read as one, an empty list is not.
pub proof fn law_text_list_is_detected(with_text: bool)
    ensures
        parsed(message(CB_FORMAT_LIST, 0, short_text_list(with_text))) == Some(
            ClipView::FormatList { has_text: with_text },
        ),
{
    let data = short_text_list(with_text);
    lemma_message(CB_FORMAT_LIST, 0, data);
    if with_text {
        lemma_bytes32(CF_UNICODETEXT);
        assert(forall|i: int| 0 <= i < 4 ==> data[i] == bytes32(CF_UNICODETEXT)[i]);
        assert(entry_is_text(data, 0));
    } else {
        assert forall|k: int| 0 <= k implies !#[trigger] entry_is_text(data, k) by {}
    }
}

/// A data request names the format that was asked for.
pub proof fn law_data_request_round_trip(format_id: u32)
    ensures
        parsed(message(CB_FORMAT_DATA_REQUEST, 0, bytes32(format_id))) == Some(
            ClipView::FormatDataRequest { format_id },
        ),
{
    lemma_message(CB_FORMAT_DATA_REQUEST, 0, bytes32(format_id));
    lemma_bytes32(format_id);
}

} // verus!
