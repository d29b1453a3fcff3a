//! An active session: PDUs in, regions of the desktop out.

use sccm_rc::orders::OrderCanvas;
use sccm_rc::rdp::active::{
    opening, stage_failure, ActiveSession, ActiveSettings, Elapsed, FrameKind, Next, Opening,
    OpeningSettings, Rendered,
};
use sccm_rc::rdp::fastpath::{mppc_records, wrap_fastpath};
use sccm_rc::rdp::frame::{union_region, CompositeFrame, DecodedFrame, FrameView, UpdateRegion};
use sccm_rc::rdp::monitor::{parse_layout, requested_size, MonitorFlags};
use sccm_rc::rdp::pdu::{can_examine, fix_short_bitmap_cache_rev2, take_pdu, Action};
use sccm_rc::rdp::refresh::{allow_output, refresh_area, refresh_rect};
use sccm_rc::rdp::sink::{lit_pixels, wander, BenchStats, LoggingSink, PngDumpSink, SessionSink};
use sccm_rc::rdp::startup::{
    is_yes, persistent_key_list, sccm_rdp_config, wlc_desktop_messages, Negotiation, Sequence,
};

const ON: ActiveSettings =
    ActiveSettings { cursor_refresh: true, clipboard: true, curtain: true, force_paint: false };

fn session(buf: Vec<u8>) -> ActiveSession {
    ActiveSession::new(ON, 100, 50, 1003, 1007, 0x1234, buf)
}

/// One opaque rectangle, ten by ten at (20, 10), in red.
const RECT: [u8; 16] =
    [1, 0, 0x09, 0x0A, 0x7F, 20, 0, 10, 0, 10, 0, 10, 0, 0xFF, 0x00, 0x00];

fn orders_update(stream: &[u8]) -> Vec<u8> {
    let mut body = vec![0x00];
    body.extend_from_slice(&(stream.len() as u16).to_le_bytes());
    body.extend_from_slice(stream);
    wrap_fastpath(0x00, &body)
}

fn pixel(f: &CompositeFrame, x: usize, y: usize) -> [u8; 4] {
    let i = (y * f.width() as usize + x) * 4;
    let d = f.data();
    [d[i], d[i + 1], d[i + 2], d[i + 3]]
}

#[test]
fn orders_reach_the_composite() {
    let mut s = session(Vec::new());
    let wire = orders_update(&RECT);
    // The PDU comes in two pieces; until it is whole there is nothing to do.
    s.received(&wire[..5]);
    assert!(matches!(s.next().unwrap(), Next::Wait(None)));
    s.received(&wire[5..]);
    let (action, frame) = match s.next().unwrap() {
        Next::Frame(a, f) => (a, f),
        Next::Wait(_) => panic!("a whole PDU is there"),
    };
    assert_eq!(action, Action::FastPath);
    assert_eq!(frame, wire);
    let stream = match s.classify(action, frame) {
        FrameKind::Orders(v) => v,
        _ => panic!("these are drawing orders"),
    };
    assert_eq!(stream, RECT);
    assert!(matches!(s.render(&stream), Rendered::Quiet));
    assert_eq!(pixel(s.composite(), 20, 10), [0xff, 0, 0, 0xff]);
    assert_eq!(pixel(s.composite(), 30, 10)[0], 0);
    // It is shown when it is time, or before the session waits.
    assert_eq!(s.flush(15), None);
    let region = UpdateRegion { left: 20, top: 10, right: 29, bottom: 19 };
    assert!(matches!(s.next().unwrap(), Next::Wait(Some(r)) if r == region));
    assert_eq!(s.flush(16), None);
    assert_eq!(s.counters(), (1, 1));
}

#[test]
fn slow_path_pdus_go_to_the_decoder() {
    let mut s = session(vec![3, 0, 0, 7, 2, 0xf0, 0x80, 3]);
    match s.next().unwrap() {
        Next::Frame(Action::X224, f) => {
            assert_eq!(f.len(), 7);
            assert!(matches!(s.classify(Action::X224, f.clone()), FrameKind::Stage(g) if g == f));
        }
        _ => panic!("a slow-path PDU"),
    }
    assert!(matches!(s.next().unwrap(), Next::Wait(None)));
}

#[test]
fn unreadable_streams_end_the_session() {
    let mut s = session(vec![0x02, 0xff, 0xff, 0xff]);
    let text = match s.next() {
        Err(e) => e.message(),
        Ok(_) => panic!("no PDU starts like this"),
    };
    assert!(text.starts_with("protocol: find_size: "), "{text}");
    assert_eq!(stage_failure("an unhandled PDU came").map(|e| e.message()), None);
    assert_eq!(
        stage_failure("bad").map(|e| e.message()),
        Some("protocol: active-stage: bad".to_string())
    );
}

#[test]
fn desyncs_are_found_out() {
    let mut s = session(Vec::new());
    // An order of a type that does not exist.
    let bad = [1, 0, 0x09, 0x3F];
    for n in 1..60 {
        assert!(matches!(s.render(&bad), Rendered::Failed(k) if k == n));
        // A stray success does not hide it.
        if n % 7 == 0 {
            assert!(matches!(s.render(&RECT), Rendered::Quiet));
        }
    }
    match s.render(&bad) {
        Rendered::Desync(e) => assert!(e.message().contains("order stream desync")),
        _ => panic!("sixty failures are enough"),
    }
    // A run of clean streams makes up for every failure.
    let mut t = session(Vec::new());
    for _ in 0..50 {
        t.render(&bad);
    }
    for _ in 0..8 {
        t.render(&RECT);
    }
    assert!(matches!(t.render(&bad), Rendered::Failed(1)));
}

#[test]
fn reactivation_drops_the_old_desktop() {
    let mut s = session(vec![1, 2, 3]);
    s.render(&RECT);
    let buf = s.reactivate(&[9, 9], true, Some(77));
    assert_eq!(buf, [9, 9, 1, 2, 3]);
    assert_eq!(s.share_id(), 77);
    s.reactivated(40, 30, 1, 2, Vec::new());
    assert_eq!(s.desktop(), (40, 30));
    assert_eq!(s.channel_ids(), (2, 1));
    assert_eq!((s.composite().width(), s.composite().height()), (40, 30));
    assert!(s.composite().data().chunks(4).all(|p| p[0] == 0));
    assert!(matches!(s.next().unwrap(), Next::Wait(None)));
    assert_eq!(s.reactivate(&[9], false, None), Vec::<u8>::new());
    assert_eq!(s.share_id(), 77);
}

#[test]
fn cursor_trails_are_repainted() {
    let mut s = session(Vec::new());
    assert!(!s.has_trail());
    s.track_pointer(60, 10);
    assert!(s.has_trail());
    assert_eq!(s.take_trail(119), None);
    s.track_pointer(10, 30);
    assert_eq!(s.take_trail(120), Some(UpdateRegion { left: 0, top: 0, right: 99, bottom: 49 }));
    assert!(!s.has_trail());
    // Beyond the desktop the rectangle is upside down, and dropped.
    s.track_pointer(200, 10);
    assert_eq!(s.take_trail(120), None);
    s.track_pointer(5, 5);
    assert_eq!(s.pointer_rested(), UpdateRegion { left: 0, top: 0, right: 99, bottom: 49 });
    assert!(!s.has_trail());
}

#[test]
fn curtain_and_clipboard_are_served_when_asked_for() {
    let mut s = session(Vec::new());
    assert_eq!(s.curtain_change(false), None);
    assert_eq!(s.curtain_change(true), Some(true));
    assert_eq!(s.curtain_change(true), None);
    assert_eq!(s.curtain_change(false), Some(false));
    assert!(s.polls_clipboard(700) && !s.polls_clipboard(699));
    let off = ActiveSettings { clipboard: false, curtain: false, ..ON };
    let mut t = ActiveSession::new(off, 1, 1, 0, 0, 0, Vec::new());
    assert_eq!(t.curtain_change(true), None);
    assert!(!t.polls_clipboard(9999));
}

#[test]
fn housekeeping_is_due_by_the_clock() {
    let mut s = session(Vec::new());
    s.render(&RECT);
    let early = s.due(Elapsed { stats: 999, clipboard: 699, shown: 15 }, false);
    assert!(!early.stats && !early.clipboard && early.file);
    assert_eq!((early.curtain, early.show), (None, None));
    let late = s.due(Elapsed { stats: 1000, clipboard: 700, shown: 16 }, true);
    assert!(late.stats && late.clipboard);
    assert_eq!(late.curtain, Some(true));
    assert_eq!(late.show, Some(UpdateRegion { left: 20, top: 10, right: 29, bottom: 19 }));
    let again = s.due(Elapsed { stats: 0, clipboard: 0, shown: 16 }, true);
    assert_eq!((again.curtain, again.show), (None, None));
}

#[test]
fn graphics_of_the_decoder_are_shown() {
    let mut s = session(Vec::new());
    let mut image = OrderCanvas::new(100, 50);
    image.put(3, 4, [1, 2, 3, 255]);
    image.put(9, 9, [7, 7, 7, 255]);
    let region = UpdateRegion { left: 3, top: 4, right: 3, bottom: 4 };
    s.on_graphics(&image, region);
    assert_eq!(pixel(s.composite(), 3, 4), [1, 2, 3, 255]);
    assert_eq!(pixel(s.composite(), 9, 9)[0], 0);
    assert_eq!(s.flush(16), Some(region));
    // An idle frame is shown whole now and then, where that is wished for.
    let forced = ActiveSettings { force_paint: true, ..ON };
    let mut t = ActiveSession::new(forced, 10, 10, 0, 0, 0, Vec::new());
    assert!(matches!(t.render(&[0, 0]), Rendered::Show(r) if r == UpdateRegion::full(10, 10)));
}

#[test]
fn openings_follow_the_settings() {
    let all = OpeningSettings {
        key_list: true,
        arbitration: true,
        desktop_controls: true,
        no_repaint: false,
    };
    assert_eq!(
        opening(all, None),
        [
            Opening::KeyList,
            Opening::Attaching,
            Opening::Arbitrate(1),
            Opening::DesktopControls,
            Opening::Repaint,
        ]
    );
    assert_eq!(opening(all, Some("7"))[2], Opening::Arbitrate(7));
    assert_eq!(opening(all, Some("x"))[2], Opening::Arbitrate(1));
    assert!(!opening(all, Some("0")).contains(&Opening::Arbitrate(0)));
    let none = OpeningSettings {
        key_list: false,
        arbitration: false,
        desktop_controls: false,
        no_repaint: true,
    };
    assert_eq!(opening(none, Some("7")), [Opening::Attaching]);
}

#[test]
fn pdus_are_taken_whole() {
    let mut buf = vec![3, 0, 0, 5, 9];
    buf.push(0x00);
    assert_eq!(take_pdu(&mut buf).unwrap(), Some((Action::X224, vec![3, 0, 0, 5, 9])));
    assert_eq!(buf, [0x00]);
    assert_eq!(take_pdu(&mut buf).unwrap(), None);
    buf.extend_from_slice(&[0x03, 0xAA]);
    assert_eq!(take_pdu(&mut buf).unwrap(), Some((Action::FastPath, vec![0, 3, 0xAA])));
    assert_eq!(take_pdu(&mut buf).unwrap(), None);
}

/// A Demand Active with a source descriptor of `name` bytes, whose second-revision bitmap
/// cache set has a body of 24 bytes, and whose MCS length takes one byte or two.
fn demand_active(name: usize, wide: bool) -> Vec<u8> {
    let mut set = vec![0x13, 0, 28, 0];
    set.extend_from_slice(&[0xAB; 24]);
    let mut share = Vec::new();
    share.extend_from_slice(&[0, 0, 0x11, 0, 0, 0, 0, 0, 0, 0]); // control header, share id
    share.extend_from_slice(&[name as u8, 0]); // source descriptor length
    share.extend_from_slice(&[32, 0]); // combined length: count, pad and the set
    share.extend(std::iter::repeat(b'x').take(name));
    share.extend_from_slice(&[1, 0, 0, 0]);
    share.extend_from_slice(&set);
    let len = share.len() as u16;
    share[..2].copy_from_slice(&len.to_le_bytes());
    let mut f = vec![3, 0, 0, 0, 2, 0xf0, 0x80, 0x68, 0, 1, 3, 0xeb, 0x70];
    if wide {
        f.push(0x80);
    }
    f.push(share.len() as u8);
    f.extend_from_slice(&share);
    let total = f.len() as u16;
    f[2..4].copy_from_slice(&total.to_be_bytes());
    f
}

#[test]
fn short_capability_sets_are_padded() {
    let f = demand_active(1, true);
    assert!(can_examine(&f));
    let g = fix_short_bitmap_cache_rev2(&f).unwrap();
    assert_eq!(g.len(), f.len() + 12);
    assert_eq!(u16::from_be_bytes([g[2], g[3]]) as usize, g.len());
    assert_eq!(g[14], f[14] + 12);
    assert_eq!(g[15], f[15] + 12);
    assert_eq!(g[27], 44);
    // The set itself is complete now, its tail zero.
    let at = g.len() - 40;
    assert_eq!(&g[at..at + 4], [0x13, 0, 40, 0]);
    assert_eq!(&g[at + 28..], [0; 12]);
    // A complete one is left alone, and so is any other frame.
    assert_eq!(fix_short_bitmap_cache_rev2(&g), None);
    assert_eq!(fix_short_bitmap_cache_rev2(&[0, 5, 1, 0, 0]), None);
    assert!(can_examine(&[]));
    assert!(!can_examine(&f[..20]));
}

#[test]
fn short_mcs_lengths_grow_too() {
    // 47 bytes of user data become 59: one byte is still enough.
    let f = demand_active(1, false);
    assert_eq!((f[13], f.len()), (47, 14 + 47));
    assert!(can_examine(&f));
    let g = fix_short_bitmap_cache_rev2(&f).unwrap();
    assert_eq!((g[13], g.len()), (59, 14 + 59));
    assert_eq!(u16::from_be_bytes([g[2], g[3]]) as usize, g.len());
    assert_eq!((g[14], g[26]), (59, 44));
    // 116 become 128: the length takes two bytes, and the TPKT one more.
    let f = demand_active(70, false);
    assert_eq!((f[13], f.len()), (116, 14 + 116));
    assert!(can_examine(&f));
    let g = fix_short_bitmap_cache_rev2(&f).unwrap();
    assert_eq!(g, fix_short_bitmap_cache_rev2(&demand_active(70, true)).unwrap());
    assert_eq!((&g[13..15], g.len()), (&[0x80, 128][..], 15 + 128));
    assert_eq!(u16::from_be_bytes([g[2], g[3]]) as usize, g.len());
    assert_eq!(fix_short_bitmap_cache_rev2(&g), None);
    // A TPKT that cannot grow by as much.
    let mut full = f.clone();
    full[2..4].copy_from_slice(&0xFFF3u16.to_be_bytes());
    assert!(!can_examine(&full));
    full[3] = 0xF2;
    assert!(can_examine(&full));
}

#[test]
fn decoded_frames_reach_the_composite() {
    let data: Vec<u8> = (0..16).collect();
    assert!(DecodedFrame::new(&data, 2, 3).is_none());
    assert!(DecodedFrame::new(&data, 1, 3).is_none());
    let f = DecodedFrame::new(&data, 2, 2).unwrap();
    assert_eq!((f.data(), f.width(), f.height()), (&data[..], 2, 2));
    let mut c = CompositeFrame::new(2, 2);
    c.blit(&f, UpdateRegion { left: 1, top: 0, right: 1, bottom: 1 });
    assert_eq!(c.data(), [0, 0, 0, 0, 4, 5, 6, 7, 0, 0, 0, 0, 12, 13, 14, 15]);
}

#[test]
fn composites_follow_and_regions_join() {
    let a = UpdateRegion { left: 1, top: 5, right: 3, bottom: 6 };
    let b = UpdateRegion { left: 2, top: 2, right: 9, bottom: 5 };
    assert_eq!(union_region(None, a), Some(a));
    assert_eq!(
        union_region(Some(a), b),
        Some(UpdateRegion { left: 1, top: 2, right: 9, bottom: 6 })
    );
    assert_eq!(UpdateRegion::full(10, 5), UpdateRegion { left: 0, top: 0, right: 9, bottom: 4 });
    let mut c = CompositeFrame::new(4, 4);
    let mut canvas = OrderCanvas::new(4, 4);
    canvas.put(1, 1, [5, 6, 7, 255]);
    c.blit(&canvas, UpdateRegion { left: 0, top: 0, right: 9, bottom: 1 });
    assert_eq!(pixel(&c, 1, 1), [5, 6, 7, 255]);
    // A frame of another size is not copied.
    c.resize(3, 3);
    c.blit(&canvas, UpdateRegion::full(3, 3));
    assert_eq!(pixel(&c, 1, 1)[0], 0);
}

#[test]
fn layouts_drop_what_cannot_be_read() {
    let specs: Vec<String> =
        ["junk", "800x600+0+0", "640x480+800+0"].iter().map(|s| s.to_string()).collect();
    let m = parse_layout(&specs);
    assert_eq!(m.len(), 2);
    // The first of the list would have been the primary.
    assert!(!m[0].flags.contains(MonitorFlags::PRIMARY));
    assert_eq!(requested_size(&m, 1, 2), (1440, 600));
    assert_eq!(requested_size(&[], 1280, 720), (1280, 720));
    assert!(parse_layout(&specs[1..].to_vec())[0].flags.contains(MonitorFlags::PRIMARY));
}

#[test]
fn configurations_ask_for_standard_security() {
    let c = sccm_rdp_config(800, 600, vec![], Some("me".to_string()), false, None);
    assert!(!c.enable_tls && !c.enable_credssp && c.enable_server_pointer);
    assert!(!c.pointer_software_rendering);
    assert_eq!((c.username.as_str(), c.client_name.as_str()), ("me", "sccm-rc"));
    assert_eq!(c.performance_flags, 0x86);
    let d = sccm_rdp_config(800, 600, vec![], None, true, Some("TRUE"));
    assert_eq!(d.username, "user");
    assert_eq!(d.performance_flags, 0x1086);
    assert!(d.pointer_software_rendering);
    assert!(is_yes(Some("1")) && !is_yes(Some("yes")) && !is_yes(None));
}

#[test]
fn negotiations_wait_for_whole_pdus() {
    let mut n = Negotiation::new(Sequence::Connect, vec![1, 2], 0);
    assert_eq!(n.take(Ok(None)).unwrap(), None);
    assert_eq!(n.take(Ok(Some(3))).unwrap(), None);
    n.received(Some(vec![3, 4])).unwrap();
    assert_eq!(n.take(Ok(Some(3))).unwrap(), Some(vec![1, 2, 3]));
    n.saw_share_id(None);
    n.saw_share_id(Some(9));
    n.saw_share_id(Some(8));
    let failed = n.take(Err("no".to_string()));
    assert_eq!(failed.err().unwrap().message(), "protocol: pdu hint: no");
    assert_eq!(
        n.received(None).err().unwrap().message(),
        "protocol: server closed during RDP connect"
    );
    assert_eq!(n.step_error("bad").message(), "protocol: ironrdp: bad");
    assert_eq!(n.finish(true, "").unwrap(), (vec![4], 9));
    let r = Negotiation::new(Sequence::Reactivate, vec![], 0);
    assert_eq!(r.step_error("bad").message(), "protocol: reactivation: bad");
    assert_eq!(
        r.finish(false, "").err().unwrap().message(),
        "protocol: reactivation did not finalize"
    );
}

#[test]
fn opening_messages_have_the_lengths_they_announce() {
    for m in wlc_desktop_messages() {
        assert_eq!(u16::from_le_bytes([m[0], m[1]]) as usize, m.len());
    }
    let k = persistent_key_list(1007, 0x01020304);
    assert_eq!(&k[..10], [42, 0, 0x17, 0, 0xef, 3, 4, 3, 2, 1]);
    assert_eq!(k.len(), 42);
}

#[test]
fn refreshes_are_encoded() {
    let r = UpdateRegion { left: 1, top: 2, right: 3, bottom: 0x104 };
    assert_eq!(
        refresh_area(1007, 0x01020304, r),
        [
            30, 0, 0x17, 0, 0xef, 3, 4, 3, 2, 1, 0, 2, 16, 0, 0x21, 0, 0, 0, 1, 0, 0, 0, 1, 0, 2,
            0, 3, 0, 4, 1
        ]
    );
    assert_eq!(allow_output(1007, 0x01020304, r)[14], 0x23);
    let (allow, refresh) = refresh_rect(1, 2, 100, 50);
    assert_eq!(&allow[22..], [0, 0, 0, 0, 99, 0, 49, 0]);
    assert_eq!(&refresh[22..], [0, 0, 0, 0, 99, 0, 49, 0]);
    assert_eq!(&refresh_rect(1, 2, 0, 0).0[22..], [0; 8]);
}

#[test]
fn compressed_updates_are_recorded() {
    // One compressed update and one that is not.
    let mut body = vec![0x80, 0x21, 2, 0, 0xAA, 0xBB];
    body.extend_from_slice(&[0x01, 1, 0, 7]);
    assert_eq!(mppc_records(&wrap_fastpath(0, &body)), [0x80, 0x21, 2, 0, 0xAA, 0xBB]);
}

#[test]
fn sinks_count_what_they_see() {
    let mut canvas = OrderCanvas::new(2, 1);
    canvas.put(0, 0, [13, 0, 0, 255]);
    canvas.put(1, 0, [5, 5, 2, 255]);
    assert_eq!(lit_pixels(&canvas, 12), 1);
    assert_eq!(lit_pixels(&canvas, 0), 2);
    let all = UpdateRegion::full(2, 1);
    let mut log = LoggingSink::default();
    assert!(log.updates == 0);
    log.on_graphics_update(&canvas, all);
    assert_eq!((log.updates, log.total_pixels), (1, 2));
    let mut png = PngDumpSink::new("a.png".to_string());
    png.on_graphics_update(&canvas, all);
    assert_eq!((png.updates, png.nonblack_pixels), (1, 2));
    assert_eq!(png.temporary_path(), "a.png.tmp");
    assert!(png.reports());
    let mut b = BenchStats::default();
    b.painted(40, &canvas);
    b.painted(90, &canvas);
    assert_eq!((b.updates, b.first_paint_ms, b.last_update_ms), (2, Some(40), 90));
    assert_eq!((b.nonblack, b.total_px), (1, 2));
    assert!(wander(5, 10, 3) < 10);
}

#[test]
fn every_change_is_shown() {
    let mut s = session(Vec::new());
    let (w, h) = s.desktop();
    let data = vec![7u8; w as usize * h as usize * 4];
    let frame = DecodedFrame::new(&data, w, h).unwrap();
    s.on_graphics(&frame, UpdateRegion { left: 1, top: 2, right: 3, bottom: 4 });
    s.on_graphics(&frame, UpdateRegion { left: 10, top: 0, right: 11, bottom: 1 });
    assert_eq!(pixel(s.composite(), 2, 3), [7; 4]);
    assert_eq!(pixel(s.composite(), 11, 0), [7; 4]);
    assert_eq!(pixel(s.composite(), 5, 3)[0], 0);
    let both = UpdateRegion { left: 1, top: 0, right: 11, bottom: 4 };
    assert!(matches!(s.next().unwrap(), Next::Wait(Some(r)) if r == both));
    assert!(matches!(s.next().unwrap(), Next::Wait(None)));
}
