//! RDP: fast-path updates, order fragments, regions and monitor layouts.

use std::collections::VecDeque;

use sccm_rc::orders::{OrderCanvas, Rect};
use sccm_rc::protocol::mppc::MppcDecompressor;
use sccm_rc::rdp::fastpath::{
    decode_fastpath_orders, maybe_decompress, reassemble_orders, wrap_fastpath, Decomp,
    Fragmentation,
};
use sccm_rc::rdp::frame::order_region;
use sccm_rc::rdp::monitor::{monitors_bounding_size, parse_monitor, MonitorFlags};

#[test]
fn monitor_layout_parses_and_bboxes() {
    let m0 = parse_monitor("1920x1080+0+0", true).unwrap();
    let m1 = parse_monitor("1280x1024+1920+0", false).unwrap();
    assert_eq!((m0.right, m0.bottom), (1919, 1079));
    assert!(m0.flags.contains(MonitorFlags::PRIMARY));
    assert!(!m1.flags.contains(MonitorFlags::PRIMARY));
    assert_eq!(m1.left, 1920);
    // The bounding box spans both side-by-side monitors.
    assert_eq!(monitors_bounding_size(&[m0, m1]), Some((3200, 1080)));
    assert_eq!(monitors_bounding_size(&[]), None);
    // A missing origin is zero; garbage is refused.
    assert_eq!(parse_monitor("800x600", false).unwrap().left, 0);
    assert!(parse_monitor("garbage", true).is_none());
    assert!(parse_monitor("0x600", true).is_none());
}

#[test]
fn fragmented_compressed_update_decompresses_per_fragment() {
    // Each fragment is a packet of its own that shares only the history: two ORDERS
    // fragments FIRST("AB") and LAST("CD") give "ABCD".
    let ab = [0b0100_0001u8, 0b0100_0010];
    let cd = [0b0100_0011u8, 0b0100_0100];
    let mk = |uh: u8, cflags: u8, data: &[u8]| -> Vec<u8> {
        let mut body = vec![uh, cflags];
        body.extend_from_slice(&(data.len() as u16).to_le_bytes());
        body.extend_from_slice(data);
        wrap_fastpath(0x00, &body)
    };
    // updateCode 0 = ORDERS, compression bit 0x80 set; FIRST(2)=0xA0 LAST(1)=0x90.
    let f1 = mk(0xA0, 0x21, &ab); // FIRST, COMPRESSED (64K)
    let f2 = mk(0x90, 0x21, &cd); // LAST,  COMPRESSED (64K)

    let mut dec = MppcDecompressor::new();
    let mut extra = VecDeque::new();

    let r1 = match maybe_decompress(&f1, &mut dec, &mut extra) {
        Decomp::Ready(f) => f,
        _ => panic!("FIRST fragment should produce a Ready update"),
    };
    let r2 = match maybe_decompress(&f2, &mut dec, &mut extra) {
        Decomp::Ready(f) => f,
        _ => panic!("LAST fragment should produce a Ready update"),
    };

    let mut buf = Vec::new();
    let mut active = false;
    let (fr1, d1) = decode_fastpath_orders(&r1).expect("r1 is an ORDERS update");
    assert_eq!(fr1, Fragmentation::First);
    assert!(reassemble_orders(&mut buf, &mut active, fr1, d1).is_none());
    let (fr2, d2) = decode_fastpath_orders(&r2).expect("r2 is an ORDERS update");
    assert_eq!(fr2, Fragmentation::Last);
    let joined = reassemble_orders(&mut buf, &mut active, fr2, d2).expect("LAST completes");
    assert_eq!(joined, b"ABCD");
}

/// Order bytes in a fast-path orders update (single fragment, no compression).
fn fastpath_orders_frame(order_data: &[u8]) -> Vec<u8> {
    let pdu_len = 1 /* updateHeader */ + 2 /* size */ + order_data.len();
    let total = 1 /* fp header */ + 1 /* per length */ + pdu_len;
    assert!(total < 0x80, "test helper only supports short frames");
    let mut f = vec![0x00u8, total as u8, 0x00];
    f.extend_from_slice(&(order_data.len() as u16).to_le_bytes());
    f.extend_from_slice(order_data);
    f
}

#[test]
fn decode_fastpath_orders_extracts_order_bytes() {
    // numberOrders=1 and an OpaqueRect order.
    let order_data = [
        0x01, 0x00, // numberOrders
        0x09, 0x0A, 0x7F, 10, 0, 20, 0, 30, 0, 40, 0, 0x11, 0x22, 0x33,
    ];
    let frame = fastpath_orders_frame(&order_data);
    let (frag, data) = decode_fastpath_orders(&frame).expect("orders update");
    assert_eq!(frag, Fragmentation::Single);
    assert_eq!(data, order_data);
}

#[test]
fn non_order_fastpath_returns_none() {
    // updateCode = 1 (Bitmap), not Orders.
    let mut frame = vec![0x00u8, 0x05, 0x01];
    frame.extend_from_slice(&0u16.to_le_bytes());
    assert!(decode_fastpath_orders(&frame).is_none());
}

#[test]
fn reassemble_orders_joins_fragments() {
    let mut buf = Vec::new();
    let mut active = false;
    assert_eq!(reassemble_orders(&mut buf, &mut active, Fragmentation::First, vec![1, 2]), None);
    assert_eq!(reassemble_orders(&mut buf, &mut active, Fragmentation::Next, vec![3]), None);
    assert_eq!(
        reassemble_orders(&mut buf, &mut active, Fragmentation::Last, vec![4, 5]),
        Some(vec![1, 2, 3, 4, 5])
    );
    // A stray Last without a First is ignored.
    assert_eq!(reassemble_orders(&mut buf, &mut active, Fragmentation::Last, vec![9]), None);
}

#[test]
fn order_region_clamps_to_canvas() {
    let canvas = OrderCanvas::new(100, 50);
    let r = Rect::new(-5, 10, 200, 200);
    let region = order_region(&canvas, r);
    assert_eq!(region.left, 0);
    assert_eq!(region.top, 10);
    assert_eq!(region.right, 99);
    assert_eq!(region.bottom, 49);
}
