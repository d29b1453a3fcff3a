//! Drawing: bitmaps, caches, raster operations, lines, and broken order streams.

use sccm_rc::orders::bitmap::decode;
use sccm_rc::orders::cache::{BitmapCache, Glyph, GlyphCache, PaletteCache, WAITING_LIST_INDEX};
use sccm_rc::orders::color::{colorref, rgb555, rgb565};
use sccm_rc::orders::cursor::Cursor;
use sccm_rc::orders::header::{
    read_field_flags, TS_ZERO_FIELD_BYTE_BIT0, TS_ZERO_FIELD_BYTE_BIT1,
};
use sccm_rc::orders::{Bitmap, ColorDepth, OrderCanvas, OrderError, OrderProcessor, Rect, Rop3};

fn update(n: u16, orders: &[u8]) -> Vec<u8> {
    let mut v = n.to_le_bytes().to_vec();
    v.extend_from_slice(orders);
    v
}

fn failure(orders: &[u8]) -> OrderError {
    let mut p = OrderProcessor::new(20, 20, ColorDepth::Bpp16);
    match p.process_orders(&update(1, orders)) {
        Ok(_) => panic!("this stream is broken"),
        Err(e) => e,
    }
}

#[test]
fn colors_are_expanded() {
    assert_eq!(rgb565(0xF800), [255, 0, 0, 255]);
    assert_eq!(rgb565(0x07E0), [0, 255, 0, 255]);
    assert_eq!(rgb555(0x001F), [0, 0, 255, 255]);
    assert_eq!(colorref(1, 2, 3), [1, 2, 3, 255]);
    assert_eq!(ColorDepth::from_bpp(16).map(|d| d.bytes_per_pixel()), Some(2));
    assert!(ColorDepth::from_bpp(7).is_none());
}

#[test]
fn rows_are_turned_around() {
    // Two rows of one pixel: the source starts at the bottom.
    let b = match decode(&[0x00, 0xF8, 0xE0, 0x07], 1, 2, ColorDepth::Bpp16, false, None) {
        Ok(b) => b,
        Err(e) => panic!("{}", e.message()),
    };
    assert_eq!(b.pixel(0, 0), Some([0, 255, 0, 255]));
    assert_eq!(b.pixel(0, 1), Some([255, 0, 0, 255]));
    assert_eq!(b.pixel(1, 0), None);
}

#[test]
fn compressed_bitmaps_are_expanded() {
    // A run of four red pixels.
    let b = match decode(&[0x64, 0x00, 0xF8], 2, 2, ColorDepth::Bpp16, true, None) {
        Ok(b) => b,
        Err(e) => panic!("{}", e.message()),
    };
    for (x, y) in [(0, 0), (1, 0), (0, 1), (1, 1)] {
        assert_eq!(b.pixel(x, y), Some([255, 0, 0, 255]));
    }
    // A run that the stream does not hold is an error.
    assert!(decode(&[0x64], 2, 2, ColorDepth::Bpp16, true, None).is_err());
}

fn tile(v: u8) -> Bitmap {
    Bitmap::new(1, 1, vec![v, v, v, 255])
}

#[test]
fn bitmap_caches_keep_what_they_get() {
    let mut c = BitmapCache::new();
    c.insert(0, 3, tile(1));
    c.insert_waiting(0, tile(2));
    assert_eq!(c.get(0, 3).and_then(|b| b.pixel(0, 0)), Some([1, 1, 1, 255]));
    assert_eq!(c.get(0, WAITING_LIST_INDEX).and_then(|b| b.pixel(0, 0)), Some([2, 2, 2, 255]));
    c.insert(0, 3, tile(4));
    assert_eq!(c.get(0, 3).and_then(|b| b.pixel(0, 0)), Some([4, 4, 4, 255]));
    assert!(c.get(0, 4).is_none());
    assert!(c.get(1, 3).is_none());
}

#[test]
fn glyph_caches_keep_glyphs_and_fragments() {
    let mut c = GlyphCache::new();
    c.insert(1, 2, Glyph { x: 0, y: 0, cx: 8, cy: 1, aj: vec![0x80] });
    assert_eq!(c.get(1, 2).map(|g| g.aj.clone()), Some(vec![0x80]));
    assert!(c.get(1, 3).is_none());
    c.put_fragment(5, &[1, 2]);
    assert_eq!(c.fragment(5), Some(&[1u8, 2][..]));
    assert!(c.fragment(6).is_none());
    assert!(PaletteCache::new().get(0).is_none());
}

#[test]
fn overlapping_copies_do_not_smear() {
    let mut c = OrderCanvas::new(5, 1);
    for x in 0..5 {
        c.put(x, 0, [x as u8, 0, 0, 255]);
    }
    c.copy_rect(Rect::new(1, 0, 4, 1), None, 0, 0);
    let row: Vec<u8> = (0..5).map(|x| c.get(x, 0)[0]).collect();
    assert_eq!(row, [0, 0, 1, 2, 3]);
}

#[test]
fn raster_operations_are_limited_to_the_clip() {
    let mut c = OrderCanvas::new(4, 1);
    c.put(1, 0, [10, 20, 30, 255]);
    let clip = Some(Rect::new(1, 0, 1, 1));
    c.dst_rop(Rect::new(0, 0, 4, 1), clip, Rop3(Rop3::DSTINVERT));
    assert_eq!(c.get(1, 0), [245, 235, 225, 255]);
    assert_eq!(c.get(2, 0)[0], 0);
    c.dst_rop(Rect::new(0, 0, 4, 1), None, Rop3(Rop3::WHITENESS));
    assert_eq!(c.get(3, 0), [255, 255, 255, 255]);
    assert!(Rop3(Rop3::SRCCOPY).is_srccopy() && !Rop3(Rop3::WHITENESS).is_srccopy());
}

#[test]
fn lines_paint_both_ends() {
    let mut p = OrderProcessor::new(20, 20, ColorDepth::Bpp16);
    // LineTo with all ten fields: back mode, start, end, back color, rop, pen.
    let order = [
        0x09, 0x09, 0xFF, 0x03, 1, 0, 2, 0, 3, 0, 12, 0, 7, 0, 0, 0, 0, 0x0D, 0, 1, 0xFF, 0, 0,
    ];
    let outcome = match p.process_orders(&update(1, &order)) {
        Ok(o) => o,
        Err(e) => panic!("{}", e.message()),
    };
    assert_eq!(p.canvas().get(2, 3), [0xff, 0, 0, 0xff]);
    assert_eq!(p.canvas().get(12, 7), [0xff, 0, 0, 0xff]);
    assert_eq!(p.canvas().get(2, 7)[0], 0);
    // What changed lies in the region that is reported.
    let d = outcome.dirty.unwrap();
    assert!(d.x <= 2 && d.y <= 3 && d.right() > 12 && d.bottom() > 7);
}

#[test]
fn lines_report_what_lies_on_the_canvas() {
    let line = |control: u8, clip: &[u8], ends: [u8; 8]| {
        let mut p = OrderProcessor::new(100, 100, ColorDepth::Bpp16);
        let mut order = vec![control, 0x09, 0x1E, 0x00];
        order.extend_from_slice(clip);
        order.extend_from_slice(&ends);
        let outcome = match p.process_orders(&update(1, &order)) {
            Ok(o) => o,
            Err(e) => panic!("{}", e.message()),
        };
        assert_eq!((outcome.orders, outcome.skipped), (1, 0));
        let painted = p.canvas().data().iter().any(|&b| b != 0);
        (outcome.dirty, painted)
    };
    // Wholly off the canvas: nothing drew.
    assert_eq!(line(0x09, &[], [200, 0, 200, 0, 210, 0, 210, 0]), (None, false));
    assert_eq!(line(0x09, &[], [0xf0, 0xff, 5, 0, 0xff, 0xff, 5, 0]), (None, false));
    // From (-10, 5) to (5, -10), past the corner: the ends enclose it, but nothing drew.
    assert_eq!(line(0x09, &[], [0xf6, 0xff, 5, 0, 5, 0, 0xf6, 0xff]), (None, false));
    // From (-5, 0) to (5, 10): only the part from (0, 5) on is on the canvas.
    assert_eq!(
        line(0x09, &[], [0xfb, 0xff, 0, 0, 5, 0, 10, 0]),
        (Some(Rect::new(0, 5, 6, 6)), true)
    );
    // Over the right edge.
    assert_eq!(
        line(0x09, &[], [90, 0, 50, 0, 110, 0, 50, 0]),
        (Some(Rect::new(90, 50, 10, 1)), true)
    );
    // On the canvas, and under bounds of 20..=29 by 0..=99.
    let ends = [10, 0, 50, 0, 40, 0, 50, 0];
    assert_eq!(line(0x09, &[], ends), (Some(Rect::new(10, 50, 31, 1)), true));
    let bounds = [0x0f, 20, 0, 0, 0, 29, 0, 99, 0];
    assert_eq!(line(0x0D, &bounds, ends), (Some(Rect::new(20, 50, 10, 1)), true));
    assert_eq!(line(0x0D, &bounds, [40, 0, 50, 0, 60, 0, 50, 0]), (None, false));
    // A diagonal keeps the rows that it has between the bounds.
    assert_eq!(
        line(0x0D, &bounds, [40, 0, 50, 0, 10, 0, 20, 0]),
        (Some(Rect::new(20, 30, 10, 10)), true)
    );
}

#[test]
fn field_flags_take_as_many_bytes_as_are_left() {
    let flags = |bytes: &[u8], control: u8, n: u8| read_field_flags(&mut Cursor::new(bytes), control, n);
    assert_eq!(flags(&[1, 2, 3, 4, 5], 0, 4).unwrap(), 0x0403_0201);
    assert_eq!(flags(&[1, 2, 3, 4, 5], TS_ZERO_FIELD_BYTE_BIT0, 3).unwrap(), 0x0201);
    let both = TS_ZERO_FIELD_BYTE_BIT0 | TS_ZERO_FIELD_BYTE_BIT1;
    assert_eq!(flags(&[1, 2, 3, 4, 5], both, 7).unwrap(), 0x0403_0201);
    assert_eq!(flags(&[1, 2], both, 2).unwrap(), 0);
    assert!(matches!(
        flags(&[1, 2, 3, 4], 0, 6),
        Err(OrderError::UnexpectedEof { needed: 1, have: 0 })
    ));
}

#[test]
fn pixels_are_blank_or_opaque() {
    let mut c = OrderCanvas::new(6, 4);
    c.fill_rect(Rect::new(0, 0, 2, 2), None, [1, 2, 3, 0]);
    c.blit_glyph(1, 1, 8, 1, &[0xAA], None, [9, 9, 9, 7]);
    c.dst_rop(Rect::new(4, 0, 1, 4), None, Rop3(Rop3::DSTINVERT));
    // A pixel that was never painted is copied as opaque black.
    c.copy_rect(Rect::new(0, 3, 2, 1), None, 2, 2);
    let clear = Bitmap::new(1, 1, vec![5, 6, 7, 0]);
    c.blit_bitmap(Rect::new(5, 3, 1, 1), None, &clear, 0, 0);
    assert_eq!(c.get(0, 0), [1, 2, 3, 255]);
    assert_eq!(c.get(0, 3), [0, 0, 0, 255]);
    assert_eq!(c.get(5, 3), [5, 6, 7, 255]);
    assert_eq!(c.get(2, 2), [0, 0, 0, 0]);
    assert_eq!(c.data().len(), 6 * 4 * 4);
    assert!(c.data().chunks(4).all(|p| p == [0, 0, 0, 0] || p[3] == 255));
    c.resize(3, 2);
    assert_eq!(c.data(), [0; 24]);
}

#[test]
fn secondary_orders_do_not_draw() {
    let mut p = OrderProcessor::new(20, 20, ColorDepth::Bpp16);
    // A glyph goes to its cache, and nothing is painted.
    let order = [
        0x03, 13, 0, 0, 0, 0x03, 0, 1, 0, 0, 0, 0, 0, 0, 8, 0, 8, 0, 255, 255, 255, 255, 255, 255,
        255, 255,
    ];
    let outcome = match p.process_orders(&update(1, &order)) {
        Ok(o) => o,
        Err(e) => panic!("{}", e.message()),
    };
    assert_eq!((outcome.orders, outcome.dirty.is_none()), (1, true));
    assert!(p.canvas().data().iter().all(|&b| b == 0));
}

#[test]
fn resizing_keeps_the_canvas_usable() {
    let mut p = OrderProcessor::new(20, 20, ColorDepth::Bpp16);
    p.resize(5, 6);
    assert_eq!((p.canvas().width(), p.canvas().height()), (5, 6));
    assert_eq!(p.canvas().data().len(), 120);
}

#[test]
fn broken_streams_say_why() {
    // The field flags are missing.
    assert!(matches!(failure(&[0x09, 0x0A]), OrderError::UnexpectedEof { .. }));
    assert!(matches!(failure(&[0x09, 0x3F]), OrderError::UnsupportedOrderType(0x3F)));
    let errors = [
        (
            OrderError::UnexpectedEof { needed: 3, have: 1 },
            "unexpected end of order stream: needed 3 bytes, had 1",
        ),
        (OrderError::UnsupportedOrderType(0x3F), "unsupported order type 0x3f"),
        (OrderError::UnsupportedSecondaryOrder(9), "unsupported secondary order type 0x9"),
        (
            OrderError::NoOrderType(0x11),
            "order type 0x11 arrived before any TS_TYPE_CHANGE set it",
        ),
        (OrderError::Malformed("x"), "malformed order: x"),
    ];
    for (e, text) in errors {
        assert_eq!(e.message(), text);
    }
}

#[test]
fn orders_need_a_type_first() {
    // No order type has been set yet, and the order does not set one.
    match failure(&[0x01, 0x00]) {
        OrderError::NoOrderType(c) => assert_eq!(c, 0x01),
        e => panic!("{}", e.message()),
    }
}
