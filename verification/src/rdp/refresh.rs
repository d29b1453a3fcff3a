//! Messages that ask the server to send parts of the desktop again.

use crate::rdp::frame::UpdateRegion;
use crate::wire::{bytes16, bytes32};
use ironrdp_pdu::geometry::InclusiveRectangle;
use ironrdp_pdu::rdp::client_info::CompressionType;
use ironrdp_pdu::rdp::headers::{
    CompressionFlags, ShareControlHeader, ShareControlPdu, ShareDataHeader, ShareDataPdu,
    StreamPriority,
};
use ironrdp_pdu::rdp::refresh_rectangle::RefreshRectanglePdu;
use ironrdp_pdu::rdp::suppress_output::SuppressOutputPdu;
use vstd::prelude::*;

verus! {

/// Type of a Refresh Rect PDU.
pub const REFRESH_RECT: u8 = 0x21;

/// Type of a Suppress Output PDU.
pub const SUPPRESS_OUTPUT: u8 = 0x23;

/// A rectangle on the wire, all its edges inclusive.
pub open spec fn rectangle(r: UpdateRegion) -> Seq<u8> {
    bytes16(r.left) + bytes16(r.top) + bytes16(r.right) + bytes16(r.bottom)
}

/// A message about one rectangle in a share control header (total length, type,
/// source, share id) and a share data header (stream, uncompressed length, type): the
/// number one, padding, and the rectangle.
pub open spec fn rectangle_message(
    kind: u8,
    pdu_source: u16,
    share_id: u32,
    r: UpdateRegion,
) -> Seq<u8> {
    bytes16(30) + bytes16(0x17) + bytes16(pdu_source) + bytes32(share_id) + seq![0u8, 2] + bytes16(
        16,
    ) + seq![kind, 0u8] + bytes16(0) + seq![1u8, 0, 0, 0] + rectangle(r)
}

/// Calls `ironrdp_core::encode_vec` on a share data PDU that asks for one rectangle to
/// be sent again. The contract writes out the bytes; the encoder has no way to fail on
/// a PDU of this fixed size.
#[verifier::external_body]
fn encode_refresh(pdu_source: u16, share_id: u32, r: UpdateRegion) -> (v: Result<Vec<u8>, String>)
    ensures
        v is Ok,
        v->Ok_0@ == rectangle_message(REFRESH_RECT, pdu_source, share_id, r),
{
    let area = InclusiveRectangle { left: r.left, top: r.top, right: r.right, bottom: r.bottom };
    let header = ShareDataHeader {
        share_data_pdu: ShareDataPdu::RefreshRectangle(
            RefreshRectanglePdu { areas_to_refresh: vec![area] },
        ),
        stream_priority: StreamPriority::Medium,
        compression_flags: CompressionFlags::empty(),
        compression_type: CompressionType::K8,
    };
    let share_control_pdu = ShareControlPdu::Data(header);
    ironrdp_core::encode_vec(&ShareControlHeader { share_control_pdu, pdu_source, share_id })
        .map_err(|e| e.to_string())
}

/// Calls `ironrdp_core::encode_vec` on a share data PDU that allows display updates for
/// one rectangle. The contract writes out the bytes; the encoder has no way to fail on
/// a PDU of this fixed size.
#[verifier::external_body]
fn encode_allow(pdu_source: u16, share_id: u32, r: UpdateRegion) -> (v: Result<Vec<u8>, String>)
    ensures
        v is Ok,
        v->Ok_0@ == rectangle_message(SUPPRESS_OUTPUT, pdu_source, share_id, r),
{
    let area = InclusiveRectangle { left: r.left, top: r.top, right: r.right, bottom: r.bottom };
    let header = ShareDataHeader {
        share_data_pdu: ShareDataPdu::SuppressOutput(
            SuppressOutputPdu { desktop_rect: Some(area) },
        ),
        stream_priority: StreamPriority::Medium,
        compression_flags: CompressionFlags::empty(),
        compression_type: CompressionType::K8,
    };
    let share_control_pdu = ShareControlPdu::Data(header);
    ironrdp_core::encode_vec(&ShareControlHeader { share_control_pdu, pdu_source, share_id })
        .map_err(|e| e.to_string())
}

/// Ask the server to send one rectangle again.
pub fn refresh_area(pdu_source: u16, share_id: u32, r: UpdateRegion) -> (v: Vec<u8>)
    ensures
        v@ == rectangle_message(REFRESH_RECT, pdu_source, share_id, r),
{
    match encode_refresh(pdu_source, share_id, r) {
        Ok(v) => v,
        Err(_) => Vec::new(),
    }
}

/// Allow display updates for the whole desktop.
pub fn allow_output(pdu_source: u16, share_id: u32, r: UpdateRegion) -> (v: Vec<u8>)
    ensures
        v@ == rectangle_message(SUPPRESS_OUTPUT, pdu_source, share_id, r),
{
    match encode_allow(pdu_source, share_id, r) {
        Ok(v) => v,
        Err(_) => Vec::new(),
    }
}

/// The whole of a desktop; a desktop without pixels counts as one pixel.
pub open spec fn whole_desktop(width: u16, height: u16) -> UpdateRegion {
    UpdateRegion {
        left: 0,
        top: 0,
        right: if width == 0 {
            0
        } else {
            (width - 1) as u16
        },
        bottom: if height == 0 {
            0
        } else {
            (height - 1) as u16
        },
    }
}

/// Tell the server to send display updates and then to paint the whole desktop: some
/// servers do not paint until the client has allowed it.
pub fn refresh_rect(pdu_source: u16, share_id: u32, width: u16, height: u16) -> (r: (
    Vec<u8>,
    Vec<u8>,
))
    ensures
        r.0@ == rectangle_message(
            SUPPRESS_OUTPUT,
            pdu_source,
            share_id,
            whole_desktop(width, height),
        ),
        r.1@ == rectangle_message(
            REFRESH_RECT,
            pdu_source,
            share_id,
            whole_desktop(width, height),
        ),
{
    let whole = UpdateRegion {
        left: 0,
        top: 0,
        right: width.saturating_sub(1),
        bottom: height.saturating_sub(1),
    };
    (allow_output(pdu_source, share_id, whole), refresh_area(pdu_source, share_id, whole))
}

} // verus!
