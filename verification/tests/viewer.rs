//! The viewer: what it paints, its toolbar, its input and its files.

use sccm_rc::rdp::frame::UpdateRegion;
use sccm_rc::rdp::sink::{PointerImage, PointerUpdate};
use sccm_rc::viewer::audit::{audit_line, esc, needs_rotation, utc_string, AuditEvent};
use sccm_rc::viewer::cursor::{draw_cursor, hide_painted_cursor, CursorState};
use sccm_rc::viewer::input::{Controls, InputEvent, MouseAction, Request};
use sccm_rc::viewer::overlay::{clear, draw_overlay, draw_spinner};
use sccm_rc::viewer::pacing::{Pause, RepaintCap};
use sccm_rc::viewer::paint::{
    draw_desktop, draw_desktop_scaled, draw_glyph, draw_text_centered, draw_text_scaled, fill_rect,
    tint_pixel, Sample,
};
use sccm_rc::viewer::recent::{add, dropdown_items, load};
use sccm_rc::viewer::record::{drop_alpha, frame_name, session_name, Recorder};
use sccm_rc::viewer::state::{
    connect_timeout_text, connecting_to, mode_text, overlay_color, state_text, window_title,
    SharedFrame,
};
use sccm_rc::viewer::toolbar::{
    draw, fmt_bw, hit_test, layout, measure, plan, status_text, DrawOp, Status, ToolbarAction,
    Widths, ACCENT_BUSY, ACCENT_OK, BAR_BG, BTN_ACTIVE, BTN_BG, HAIRLINE, REC_RED, TOOLBAR_H,
};
use sccm_rc::viewer::window::{
    bar_height, desk_height, render_picture, render_pointer, WindowInput, WindowState,
};
use sccm_rc::viewer::wol::{cache_mac, cached_mac, fmt_mac, mac_in_arp_table, magic_packet, parse_mac};

fn strings(v: &[&str]) -> Vec<String> {
    v.iter().map(|s| s.to_string()).collect()
}

#[test]
fn boxes_are_cut_at_the_window() {
    let mut buf = vec![0u32; 13];
    fill_rect(&mut buf, 4, 3, 2, 1, 9, 9, 7);
    assert_eq!(buf, [0, 0, 0, 0, 0, 0, 7, 7, 0, 0, 7, 7, 0]);
}

#[test]
fn pixels_are_tinted() {
    let mut buf = vec![0x646464u32; 4];
    tint_pixel(&mut buf, 2, 2, 1, 0, 0xc86400, 51);
    tint_pixel(&mut buf, 2, 2, 0, 1, 0xffffff, 255);
    tint_pixel(&mut buf, 2, 2, 1, 1, 0xffffff, 0);
    tint_pixel(&mut buf, 2, 2, -1, 0, 0, 255);
    tint_pixel(&mut buf, 2, 2, 0, 2, 0, 255);
    assert_eq!(buf, [0x646464, 0x786450, 0xffffff, 0x646464]);
}

#[test]
fn glyphs_are_drawn_bit_by_bit() {
    // The lowest bit is the leftmost pixel; every pixel is doubled here.
    let glyph = [0b0000_0001, 0, 0, 0, 0, 0, 0, 0b1000_0000];
    let mut buf = vec![0u32; 16 * 16];
    draw_glyph(&mut buf, 16, 16, 0, 0, &glyph, 5, 2);
    for y in 0..16 {
        for x in 0..16 {
            let inked = (x < 2 && y < 2) || (x >= 14 && y >= 14);
            assert_eq!(buf[y * 16 + x], if inked { 5 } else { 0 }, "{x},{y}");
        }
    }
}

#[test]
fn text_takes_its_glyphs_from_the_font() {
    // 'H' has ink, a space has none, and the next character stands eight pixels on.
    let mut buf = vec![0u32; 24 * 8];
    draw_text_scaled(&mut buf, 24, 8, 0, 0, "H H", 1, 1);
    let column = |from: usize| -> Vec<u32> {
        (0..8).flat_map(|y| buf[y * 24 + from..y * 24 + from + 8].to_vec()).collect()
    };
    assert!(column(0).contains(&1));
    assert!(!column(8).contains(&1));
    assert_eq!(column(0), column(16));
    // The two uprights of the letter are there on the first row.
    assert_eq!(buf[0], 1);
    assert_eq!(buf[5], 1);
}

#[test]
fn centered_text_stands_in_the_middle() {
    let mut a = vec![0u32; 40 * 8];
    let mut b = a.clone();
    draw_text_centered(&mut a, 40, 8, 0, "ab", 1, 1);
    draw_text_scaled(&mut b, 40, 8, 12, 0, "ab", 1, 1);
    assert_eq!(a, b);
    // Too wide a text starts at the left edge.
    let mut c = vec![0u32; 8 * 8];
    let mut d = c.clone();
    draw_text_centered(&mut c, 8, 8, 0, "abc", 1, 1);
    draw_text_scaled(&mut d, 8, 8, 0, 0, "abc", 1, 1);
    assert_eq!(c, d);
}

#[test]
fn desktops_of_the_same_size_are_copied() {
    let src = [1, 2, 3, 255, 4, 5, 6, 255, 7, 8];
    let mut buf = vec![9u32; 6];
    draw_desktop(&mut buf, 2, 3, 1, &src);
    assert_eq!(buf, [9, 9, 0x010203, 0x040506, 0, 0]);
}

#[test]
fn other_desktops_are_mixed_from_four_pixels() {
    // One column between black and white, one row: halfway is 127.
    let src = [0, 0, 0, 255, 255, 255, 255, 255];
    let cols = [Sample { first: 0, second: 1, weight: 128 }];
    let rows = [Sample { first: 0, second: 0, weight: 0 }];
    let mut buf = vec![1u32];
    draw_desktop_scaled(&mut buf, 1, 1, 0, &src, 2, &cols, &rows);
    assert_eq!(buf, [0x7f7f7f]);
    // A sample behind the end of the picture leaves the pixel alone.
    let far = [Sample { first: 0, second: 9, weight: 0 }];
    let mut kept = vec![1u32];
    draw_desktop_scaled(&mut kept, 1, 1, 0, &src, 2, &far, &rows);
    assert_eq!(kept, [1]);
}

#[test]
fn pictures_are_copied_or_scaled_by_size() {
    let mut frame = SharedFrame::new();
    frame.width = 2;
    frame.height = 1;
    frame.rgba = vec![1, 2, 3, 255, 4, 5, 6, 255];
    let pick = |i: u16| Sample { first: i, second: i, weight: 0 };
    // A window with one row below the toolbar.
    let mut buf = vec![0u32; 2 * 31];
    render_picture(&mut buf, 2, 31, &frame, &[pick(1), pick(1)], &[pick(0)]);
    assert_eq!(&buf[60..], [0x010203, 0x040506]);
    // A wider one takes the samples.
    let mut wide = vec![0u32; 3 * 31];
    render_picture(&mut wide, 3, 31, &frame, &[pick(1), pick(0), pick(1)], &[pick(0)]);
    assert_eq!(&wide[90..], [0x040506, 0x010203, 0x040506]);
    assert_eq!((bar_height(31), desk_height(31)), (30, 1));
    assert_eq!((bar_height(20), desk_height(20)), (20, 1));
}

#[test]
fn cursors_are_blended() {
    let mut cursor = CursorState::new();
    cursor.apply(PointerUpdate::Bitmap(PointerImage {
        width: 3,
        height: 1,
        hotspot_x: 1,
        hotspot_y: 0,
        rgba: vec![10, 20, 30, 0, 10, 20, 30, 255, 200, 100, 0, 51],
    }));
    let mut buf = vec![0x00646464u32; 4];
    draw_cursor(&mut buf, 4, 1, &cursor, 1, 0);
    // Transparent, opaque, and a fifth of the cursor over four fifths of what is there.
    assert_eq!(buf, [0x646464, 0x0a141e, 0x786450, 0x646464]);
    // A cursor that hangs over the edge is cut.
    let mut edge = vec![0u32; 4];
    draw_cursor(&mut edge, 4, 1, &cursor, -1, 0);
    assert_eq!(edge, [0x281400, 0, 0, 0]);
}

#[test]
fn hidden_cursors_keep_their_shape() {
    let mut cursor = CursorState::new();
    assert!(!cursor.shown(true, true));
    cursor.apply(PointerUpdate::Bitmap(PointerImage {
        width: 1,
        height: 1,
        hotspot_x: 0,
        hotspot_y: 0,
        rgba: vec![1, 2, 3, 255],
    }));
    assert!(cursor.shown(true, true));
    assert!(!cursor.shown(false, true) && !cursor.shown(true, false));
    cursor.apply(PointerUpdate::Hidden);
    assert!(!cursor.shown(true, true));
    assert_eq!(cursor.rgba, [1, 2, 3, 255]);
}

#[test]
fn painted_cursors_are_covered_with_their_surroundings() {
    let (w, h) = (100u32, 100u32);
    let mut buf = vec![0u32; 10_000];
    // Grey, with a black box where the server painted its cursor.
    for (i, p) in buf.iter_mut().enumerate() {
        let (x, y) = (i as i32 % 100, i as i32 / 100);
        *p = if (x - 50).abs() <= 16 && (y - 60).abs() <= 16 { 0 } else { 0x303030 };
    }
    hide_painted_cursor(&mut buf, w, h, 30, 50, 60);
    assert!(buf.iter().all(|&p| p == 0x303030));
    // The four samples are averaged channel by channel.
    let mut mixed = vec![0u32; 10_000];
    mixed[60 * 100 + 28] = 0x040000;
    mixed[60 * 100 + 72] = 0x000800;
    mixed[38 * 100 + 50] = 0x00000c;
    mixed[82 * 100 + 50] = 0x040804;
    hide_painted_cursor(&mut mixed, w, h, 30, 50, 60);
    assert_eq!(mixed[60 * 100 + 50], 0x020404);
    assert_eq!(mixed[76 * 100 + 66], 0x020404);
    assert_eq!(mixed[77 * 100 + 66], 0);
}

#[test]
fn pointers_replace_the_painted_cursor() {
    let cursor = CursorState {
        draw: true,
        width: 1,
        height: 1,
        hotspot_x: 0,
        hotspot_y: 0,
        rgba: vec![255, 0, 0, 255],
    };
    let mut buf = vec![0x111111u32; 10_000];
    render_pointer(&mut buf, 100, 100, &cursor, 50, 60);
    assert_eq!(buf[60 * 100 + 50], 0xff0000);
    assert_eq!(buf[60 * 100 + 51], 0x111111);
}

#[test]
fn spinner_dots_fade_behind_the_head() {
    let offsets: Vec<(i32, i32)> = (0..12).map(|i| (i * 8, 0)).collect();
    let mut buf = vec![0u32; 100 * 9];
    // After 140 ms the third dot is the head.
    draw_spinner(&mut buf, 100, 9, 4, 4, &offsets, 140);
    let at = |i: usize| buf[4 * 100 + 4 + 8 * i];
    assert_eq!(at(2), 0xebebeb);
    assert_eq!(at(1), 0xd7d7d7);
    assert_eq!(at(0), 0xc3c3c3);
    assert_eq!(at(3), 0x2d2d2d);
    // A dot is round: its corner stays clear, its edge does not.
    assert_eq!(buf[2 * 100 + 2 + 16], 0);
    assert_eq!(buf[2 * 100 + 3 + 16], 0xebebeb);
}

#[test]
fn overlays_show_host_and_progress() {
    let mut buf = vec![7u32; 100 * 100 + 1];
    draw_overlay(&mut buf, 100, 100, 0x202020, "pc", "...", None, 0);
    assert_eq!(buf[10_000], 0x202020);
    assert!(buf[22 * 100..46 * 100].contains(&0x00FF_FFFF));
    assert!(buf[58 * 100..74 * 100].contains(&0x00B0_C0D0));
    let offsets = [(0, 0); 12];
    draw_overlay(&mut buf, 100, 100, 0x202020, "pc", "...", Some(&offsets), 0);
    assert_eq!(buf[50], 0xd7d7d7);
    clear(&mut buf, 3);
    assert!(buf.iter().all(|&p| p == 3));
}

#[test]
fn bandwidths_are_shown_in_the_largest_unit() {
    assert_eq!(fmt_bw(0, ""), "0 B/s");
    assert_eq!(fmt_bw(1023, ""), "1023 B/s");
    assert_eq!(fmt_bw(1024, ""), "1 KB/s");
    assert_eq!(fmt_bw(1_048_575, ""), "1023 KB/s");
    assert_eq!(fmt_bw(1_468_006, "1.4"), "1.4 MB/s");
}

fn status(recording: bool) -> Status<'static> {
    Status {
        host: "pc",
        mode: "Control",
        state: "Connected",
        connected: true,
        fps: 25,
        bytes_per_sec: 2048,
        recording,
        curtain: true,
        security: "Kerberos",
        secure: true,
        encrypted: true,
        view_only: false,
    }
}

#[test]
fn status_lines_name_everything() {
    let line = status_text(&status(false), "");
    assert_eq!(
        line,
        "pc   \u{b7}   Control   \u{b7}   Connected   \u{b7}   25 fps   \u{b7}   2 KB/s"
    );
    assert_eq!(measure(&line), 8 * line.chars().count() as u32);
}

#[test]
fn buttons_are_laid_out_from_the_right() {
    let widths = [10, 20, 30, 40, 50, 60, 70];
    let b = layout(1000, &widths);
    assert_eq!(b.len(), 7);
    assert_eq!(b[0].action, ToolbarAction::Disconnect);
    assert_eq!((b[0].x, b[0].y, b[0].w, b[0].h), (964, 3, 32, 24));
    assert_eq!((b[1].x, b[1].w), (916, 42));
    assert_eq!(b[6].action, ToolbarAction::CtrlAltDel);
    // Buttons do not overlap, and a click on one meets it.
    for (k, button) in b.iter().enumerate() {
        let x = button.x + button.w / 2;
        assert_eq!(hit_test(x, 10, 1000, &widths), Some(button.action), "{k}");
    }
    assert_eq!(hit_test(963, 10, 1000, &widths), None);
    assert_eq!(hit_test(970, 2, 1000, &widths), None);
    assert_eq!(hit_test(970, -1, 1000, &widths), None);
    assert_eq!(hit_test(970, 30, 1000, &widths), None);
    // In a narrow window they pile up at the left; the rightmost wins.
    assert_eq!(hit_test(0, 10, 10, &widths), Some(ToolbarAction::Disconnect));
}

#[test]
fn plans_follow_the_status() {
    let labels = strings(&["a", "b", "c", "d", "e", "f", "g"]);
    let widths = Widths { status: 100, rec: 24, labels: vec![8; 7] };
    let ops = plan(1000, 600, &status(true), "", &labels, &widths);
    assert_eq!(ops.len(), 4 + 2 + 3 + 14);
    match &ops[0] {
        DrawOp::Fill { x: 0, y: 0, w: 1000, h: TOOLBAR_H, color: BAR_BG } => {}
        _ => panic!("the bar comes first"),
    }
    match &ops[1] {
        DrawOp::Fill { y: 29, h: 1, color: HAIRLINE, .. } => {}
        _ => panic!("then the hairline"),
    }
    match &ops[2] {
        DrawOp::Fill { color: ACCENT_OK, .. } => {}
        _ => panic!("a green dot for a connection"),
    }
    match &ops[4] {
        DrawOp::Fill { x: 142, color: REC_RED, .. } => {}
        _ => panic!("the recording dot behind the status line"),
    }
    match &ops[5] {
        DrawOp::Text { x: 156, text, .. } => assert_eq!(text, "REC"),
        _ => panic!("the word REC"),
    }
    match &ops[8] {
        DrawOp::Text { x: 213, text, color: ACCENT_OK } => assert_eq!(text, "Kerberos"),
        _ => panic!("the security summary behind it"),
    }
    // Disconnect, fullscreen, record (red), view only, curtain (tinted).
    let colors: Vec<u32> = ops[9..16]
        .iter()
        .map(|op| match op {
            DrawOp::Fill { color, .. } => *color,
            _ => panic!("buttons are boxes"),
        })
        .collect();
    assert_eq!(colors, [BTN_BG, BTN_BG, REC_RED, BTN_BG, BTN_ACTIVE, BTN_BG, BTN_BG]);
    // A low window has no toolbar.
    assert!(plan(1000, 29, &status(true), "", &labels, &widths).is_empty());
}

#[test]
fn locks_are_colored_by_security() {
    let labels = strings(&["", "", "", "", "", "", ""]);
    let widths = Widths { status: 0, rec: 0, labels: vec![0; 7] };
    let lock = |secure: bool, encrypted: bool| {
        let st = Status { secure, encrypted, ..status(false) };
        match &plan(100, 100, &st, "", &labels, &widths)[4] {
            DrawOp::Fill { color, .. } => *color,
            _ => panic!("the padlock is a box"),
        }
    };
    assert_eq!(lock(true, true), ACCENT_OK);
    assert_eq!(lock(false, true), ACCENT_BUSY);
    assert_eq!(lock(false, false), REC_RED);
    let hidden = Status { security: "", ..status(false) };
    assert_eq!(plan(100, 100, &hidden, "", &labels, &widths).len(), 4 + 14);
}

#[test]
fn toolbars_are_drawn_over_the_top_rows() {
    let labels = strings(&["a", "b", "c", "d", "e", "f", "g"]);
    let mut buf = vec![1u32; 1000 * 40];
    draw(&mut buf, 1000, 40, &status(false), "", &labels);
    assert_eq!(buf[0], BAR_BG);
    assert_eq!(buf[29 * 1000], HAIRLINE);
    assert_eq!(buf[30 * 1000], 1);
    assert_eq!(buf[14 * 1000 + 12], ACCENT_OK);
    assert_eq!(buf[4 * 1000 + 990], BTN_BG);
}

#[test]
fn updates_copy_the_region_only() {
    let mut f = SharedFrame::new();
    let first = vec![1u8; 2 * 3 * 4];
    let all = UpdateRegion { left: 0, top: 0, right: 1, bottom: 2 };
    f.status = "Verbinden...".to_string();
    assert!(f.update(&first, 2, 3, all, 0));
    assert_eq!((f.width, f.height, f.frames), (2, 3, 1));
    assert_eq!(f.status, "");
    let second = vec![2u8; 2 * 3 * 4];
    let row = UpdateRegion { left: 1, top: 1, right: 1, bottom: 1 };
    assert!(!f.update(&second, 2, 3, row, 299));
    let mut want = first.clone();
    want[12..16].copy_from_slice(&[2; 4]);
    assert_eq!(f.rgba, want);
    // After a while the whole picture is copied again.
    assert!(f.update(&second, 2, 3, row, 300));
    assert_eq!(f.rgba, second);
    // So it is when the size changes.
    assert!(f.update(&first[..16], 2, 2, row, 0));
    assert_eq!(f.rgba.len(), 16);
    // Nothing is copied of a region whose rows are not there, inverted or not.
    assert!(f.update(&first[..16], 2, 9, all, 0));
    let beyond = UpdateRegion { left: 5, top: 5, right: 0, bottom: 5 };
    assert!(!f.update(&second[..16], 2, 9, beyond, 0));
    assert_eq!((f.rgba.as_slice(), f.frames), (&first[..16], 6));
}

#[test]
fn region_copies_are_enough_for_what_changed() {
    let mut f = SharedFrame::new();
    let old: Vec<u8> = (0..48).collect();
    f.update(&old, 4, 3, UpdateRegion { left: 0, top: 0, right: 3, bottom: 2 }, 0);
    let mut new = old.clone();
    for i in 20..28 {
        new[i] = 99;
    }
    assert!(!f.update(&new, 4, 3, UpdateRegion { left: 1, top: 1, right: 2, bottom: 1 }, 0));
    assert_eq!(f.rgba, new);
}

#[test]
fn security_is_summed_up() {
    let mut f = SharedFrame::new();
    f.set_security(true, true, Some("Kerberos"));
    assert_eq!((f.security.as_str(), f.secure, f.encrypted), ("Kerberos \u{b7} versleuteld", true, true));
    f.set_security(true, false, None);
    assert_eq!((f.security.as_str(), f.secure, f.encrypted), ("versleuteld", false, true));
    f.set_security(false, true, Some("NTLM"));
    assert_eq!((f.security.as_str(), f.secure, f.encrypted), ("ONVERSLEUTELD", false, false));
}

#[test]
fn texts_of_the_window() {
    let mut f = SharedFrame::new();
    assert!(!f.connected() && !f.painted());
    assert_eq!(f.overlay_text(None), "Verbinden...");
    f.start_over("pc7");
    assert_eq!(f.overlay_text(None), "Verbinden met pc7...");
    assert_eq!(f.overlay_text(Some("weg")), "Verbinding verbroken \u{2014} weg");
    f.update(&[0; 4], 1, 1, UpdateRegion { left: 0, top: 0, right: 0, bottom: 0 }, 0);
    assert!(f.connected() && f.painted());
    f.height = 0;
    assert!(!f.connected() && f.painted());
    assert_eq!(connecting_to("a"), "Verbinden met a...");
    assert_eq!(connect_timeout_text("a"), "verbinden met a duurde te lang (time-out)");
    assert_eq!(window_title("0.1.0", "a"), "SCCM RC 0.1.0 \u{2014} a");
    assert_eq!(state_text(true, true), "Connected");
    assert_eq!(state_text(false, true), "Disconnected");
    assert_eq!(state_text(false, false), "Connecting...");
    assert_eq!((mode_text(true), mode_text(false)), ("View Only", "Control"));
    assert_eq!((overlay_color(true), overlay_color(false)), (0x400000, 0x202020));
}

fn key(release: bool, extended: bool, code: u8) -> InputEvent {
    InputEvent::Key { release, extended, code }
}

#[test]
fn attention_sequence_releases_what_it_presses() {
    let c = Controls::new();
    assert_eq!(
        c.send_ctrl_alt_del(),
        [
            key(false, false, 0x1D),
            key(false, false, 0x38),
            key(false, true, 0x53),
            key(true, true, 0x53),
            key(true, false, 0x38),
            key(true, false, 0x1D),
        ]
    );
    // Control, alt and End stand for it; with one of them missing End is End.
    assert_eq!(c.on_key(true, true, true, true, Some(0xE04F)), c.send_ctrl_alt_del());
    assert_eq!(c.on_key(false, true, true, true, Some(0xE04F)), [key(true, true, 0x4F)]);
    assert_eq!(c.on_key(true, true, false, true, Some(0xE04F)), [key(false, true, 0x4F)]);
}

#[test]
fn keys_carry_their_scan_codes() {
    let c = Controls::new();
    assert_eq!(c.on_key(true, false, false, false, Some(0x1E)), [key(false, false, 0x1E)]);
    assert_eq!(c.on_key(false, false, false, false, Some(0x11D)), [key(true, true, 0x1D)]);
    assert_eq!(c.on_key(true, false, false, false, None), []);
}

#[test]
fn moves_are_thinned_out() {
    let c = Controls::new();
    let (counts, sent) = c.on_move(15, 3, 4);
    assert!(counts);
    assert_eq!(
        sent,
        [InputEvent::Mouse { action: MouseAction::Move, down: false, units: 0, x: 3, y: 4 }]
    );
    assert_eq!(c.on_move(14, 3, 4), (false, vec![]));
}

#[test]
fn toggles_undo_themselves() {
    let mut c = Controls::new();
    assert_eq!(c.run(ToolbarAction::ToggleCurtain), Request::SetCurtain(true));
    assert_eq!(c.run(ToolbarAction::ToggleCurtain), Request::SetCurtain(false));
    assert_eq!(c.run(ToolbarAction::ToggleFullscreen), Request::SetFullscreen(true));
    assert_eq!(c.run(ToolbarAction::ToggleFullscreen), Request::SetFullscreen(false));
    assert_eq!(c.run(ToolbarAction::ToggleRecord), Request::StartRecording);
    assert_eq!(c.run(ToolbarAction::ToggleRecord), Request::StopRecording);
    assert_eq!(c, Controls::new());
    assert_eq!(c.run(ToolbarAction::ToggleRecord), Request::StartRecording);
    c.recording_failed();
    assert_eq!(c, Controls::new());
    assert_eq!(c.run(ToolbarAction::SendFile), Request::PickFile);
    assert_eq!(c.run(ToolbarAction::Disconnect), Request::SwitchHost);
    assert_eq!(c.run(ToolbarAction::CtrlAltDel), Request::Send(c.send_ctrl_alt_del()));
}

#[test]
fn view_only_windows_send_nothing() {
    let widths = [8; 7];
    let mut s = WindowState::new();
    s.controls.run(ToolbarAction::ToggleViewOnly);
    s.window_event(WindowInput::Moved { x: 5, y: 100, desk: (5, 70), since_move: 0 }, &widths);
    let events = [
        WindowInput::Moved { x: 5, y: 100, desk: (5, 70), since_move: 99 },
        WindowInput::Button { action: MouseAction::Left, pressed: true, win_w: 500 },
        WindowInput::Wheel { units: 120 },
        WindowInput::Key { pressed: true, end_key: false, scancode: Some(0x1E) },
    ];
    for e in events {
        assert!(s.window_event(e, &widths).send.is_empty(), "{e:?}");
    }
    assert_eq!(s.controls.run(ToolbarAction::CtrlAltDel), Request::Send(vec![]));
}

#[test]
fn clicks_on_the_toolbar_stay_local() {
    let widths = [8; 7];
    let mut s = WindowState::new();
    let r = s.window_event(WindowInput::Moved { x: 480, y: 10, desk: (9, 9), since_move: 99 }, &widths);
    assert!(r.redraw && r.show_cursor && !r.moved && r.send.is_empty());
    assert_eq!(s.last_cursor, (0, 0));
    let press = WindowInput::Button { action: MouseAction::Left, pressed: true, win_w: 500 };
    let r = s.window_event(press, &widths);
    assert_eq!(r.button, Some(ToolbarAction::Disconnect));
    assert!(r.send.is_empty());
    let right = WindowInput::Button { action: MouseAction::Right, pressed: true, win_w: 500 };
    assert_eq!(s.window_event(right, &widths).button, None);
    // Below the toolbar they reach the remote side, at the place of the last move.
    let r = s.window_event(WindowInput::Moved { x: 480, y: 30, desk: (7, 8), since_move: 0 }, &widths);
    assert!(r.redraw && !r.moved && r.send.is_empty());
    let r = s.window_event(press, &widths);
    assert_eq!(r.button, None);
    assert_eq!(
        r.send,
        [InputEvent::Mouse { action: MouseAction::Left, down: true, units: 0, x: 7, y: 8 }]
    );
}

#[test]
fn windows_remember_modifiers_and_presence() {
    let widths = [8; 7];
    let mut s = WindowState::new();
    assert!(s.window_event(WindowInput::Entered, &widths).redraw);
    assert!(s.inside);
    s.window_event(WindowInput::Modifiers { ctrl: true, alt: true }, &widths);
    let end = WindowInput::Key { pressed: true, end_key: true, scancode: Some(0xE04F) };
    assert_eq!(s.window_event(end, &widths).send, s.controls.send_ctrl_alt_del());
    let r = s.window_event(WindowInput::Left, &widths);
    assert!(r.show_cursor && r.redraw && !s.inside);
    assert!(s.window_event(WindowInput::CloseRequested, &widths).close);
    assert!(s.window_event(WindowInput::Resized, &widths).redraw);
    assert!(s.window_event(WindowInput::RedrawRequested { since_paint: 16 }, &widths).paint);
    assert!(!s.window_event(WindowInput::RedrawRequested { since_paint: 15 }, &widths).paint);
    assert!(s.cap.pending);
}

#[test]
fn deferred_repaints_land() {
    let mut cap = RepaintCap::new();
    assert_eq!(cap.pause(true, false, 5), Pause::Wait);
    assert!(!cap.request(5));
    assert_eq!(cap.pause(true, false, 5), Pause::WaitAtMost(11));
    assert_eq!(cap.pause(true, false, 16), Pause::Paint);
    assert!(cap.request(16));
    assert_eq!(cap.pause(true, false, 16), Pause::Wait);
    // While nothing was painted the spinner turns, until the session is closed.
    assert_eq!(cap.pause(false, false, 0), Pause::PaintAndWait(60));
    assert_eq!(cap.pause(false, true, 0), Pause::Wait);
}

#[test]
fn recent_hosts_come_first_and_once() {
    let file = add("b\nC\n\n d \n", "c").unwrap();
    assert_eq!(load(&file), strings(&["c", "b", "d"]));
    assert_eq!(add(&file, "c"), Some(file.clone()));
    let many: String = (0..20).map(|i| format!("h{i}\n")).collect();
    assert_eq!(load(&many).len(), 12);
    assert_eq!(load(&add(&many, "x").unwrap()).len(), 12);
    assert_eq!(add(&file, "  "), None);
    assert_eq!(dropdown_items(&strings(&["a", "o'b"])), "'a','o''b'");
    assert_eq!(dropdown_items(&vec![]), "");
}

#[test]
fn hardware_addresses_round_trip() {
    let mac = parse_mac("AA-bb:00112233").unwrap();
    assert_eq!(mac, [0xAA, 0xBB, 0, 0x11, 0x22, 0x33]);
    assert_eq!(parse_mac(&fmt_mac(mac)), Some(mac));
    assert_eq!(parse_mac("AA-BB"), None);
    assert_eq!(parse_mac("zz-bb-00-11-22-33"), None);
    let packet = magic_packet(mac);
    assert_eq!(packet.len(), 102);
    assert_eq!(&packet[..6], [0xFF; 6]);
    assert!((0..16).all(|i| packet[6 + 6 * i..12 + 6 * i] == mac));
}

#[test]
fn remembered_addresses_are_found() {
    let mac = [1, 2, 3, 4, 5, 6];
    let file = cache_mac("other=AA-BB-CC-DD-EE-FF\n", "pc", mac);
    assert_eq!(cached_mac(&file, "pc"), Some(mac));
    assert_eq!(cached_mac(&file, "other"), Some([0xAA, 0xBB, 0xCC, 0xDD, 0xEE, 0xFF]));
    assert_eq!(cached_mac(&file, "none"), None);
    let again = cache_mac(&file, "pc", [9; 6]);
    assert_eq!(cached_mac(&again, "pc"), Some([9; 6]));
}

#[test]
fn arp_tables_are_searched() {
    let table = "Interface: 10.0.0.1 --- 0x5\n  Internet Address  Physical Address  Type\n  10.0.0.7  00-11-22-33-44-55  dynamic\n";
    assert_eq!(mac_in_arp_table(table, "10.0.0.7"), Some([0, 0x11, 0x22, 0x33, 0x44, 0x55]));
    assert_eq!(mac_in_arp_table(table, "10.0.0.8"), None);
}

#[test]
fn recordings_are_numbered() {
    let mut r = Recorder::start("dir".to_string());
    assert_eq!((r.dir(), r.frame_count()), ("dir", 0));
    assert_eq!(r.maybe_capture(2, 1, 8, 332), None);
    assert_eq!(r.maybe_capture(2, 1, 8, 333), Some(0));
    assert_eq!(r.maybe_capture(2, 1, 8, 333), Some(1));
    assert_eq!(r.frame_count(), 2);
    // Nothing is taken of a desktop that is not all there.
    assert_eq!(r.maybe_capture(2, 1, 7, 333), None);
    assert_eq!(r.maybe_capture(0, 1, 8, 333), None);
    assert_eq!(drop_alpha(&[1, 2, 3, 4, 5, 6, 7, 8, 9]), [1, 2, 3, 5, 6, 7]);
    assert_eq!(frame_name(7), "frame-000007.png");
    assert_eq!(session_name(12), "session-12");
}

#[test]
fn times_are_written_in_utc() {
    assert_eq!(utc_string(0), "1970-01-01 00:00:00");
    assert_eq!(utc_string(951_782_400), "2000-02-29 00:00:00");
    assert_eq!(utc_string(951_782_400 + 86_400), "2000-03-01 00:00:00");
    assert_eq!(utc_string(1_704_067_199), "2023-12-31 23:59:59");
    assert_eq!(utc_string(1_704_067_200), "2024-01-01 00:00:00");
}

#[test]
fn audit_lines_are_escaped() {
    assert_eq!(esc("a\"b\\c"), "a\\\"b\\\\c");
    assert_eq!(esc("a\nb\u{1f}c"), "a\\u000ab\\u001fc");
    let e = AuditEvent {
        event: "disconnect",
        target: "pc\"1",
        by: "me",
        from: "here",
        grant: "FullControl",
        duration_s: Some(5),
    };
    let time = utc_string(0);
    assert_eq!(
        audit_line(0, &e),
        format!(
            "{{\"ts\":0,\"time\":\"{time}\",\"event\":\"disconnect\",\"target\":\"pc\\\"1\",\"by\":\"me\",\"from\":\"here\",\"grant\":\"FullControl\",\"duration_s\":5}}\n"
        )
    );
    let open = audit_line(0, &AuditEvent { duration_s: None, ..e });
    assert!(open.ends_with("\"grant\":\"FullControl\"}\n"));
    let odd = audit_line(0, &AuditEvent { target: "pc\r\n{}", by: "\t", ..e });
    assert_eq!(odd.lines().count(), 1);
    assert!(odd.contains("\"target\":\"pc\\u000d\\u000a{}\",\"by\":\"\\u0009\""));
    assert!(needs_rotation(5_242_881));
    assert!(!needs_rotation(5_242_880));
}
