//! Session recording: the live desktop as a series of picture files, about three a
//! second.

use crate::text::{decimal, padded, push_decimal, push_padded, push_text};
use vstd::prelude::*;

verus! {

/// The least time between two frames.
pub const FRAME_INTERVAL_MS: u64 = 333;

/// The name of a recording that starts at a moment.
pub fn session_name(secs: u64) -> (s: String)
    ensures
        s@ == "session-"@ + decimal(secs as nat),
{
    let mut s = String::from_str("session-");
    push_decimal(&mut s, secs);
    s
}

/// The name of a frame's file.
pub fn frame_name(idx: u64) -> (s: String)
    ensures
        s@ == "frame-"@ + padded(idx as nat, 6) + ".png"@,
{
    let mut s = String::from_str("frame-");
    push_padded(&mut s, idx, 6);
    push_text(&mut s, ".png");
    s
}

/// Pixels without their alpha, which is unreliable in a composite. Bytes behind the
/// last whole pixel are dropped.
pub open spec fn without_alpha(rgba: Seq<u8>) -> Seq<u8> {
    Seq::new(rgba.len() / 4 * 3, |i: int| rgba[i / 3 * 4 + i % 3])
}

/// Drop the alpha of pixels.
pub fn drop_alpha(rgba: &[u8]) -> (rgb: Vec<u8>)
    ensures
        rgb@ == without_alpha(rgba@),
{
    let mut rgb: Vec<u8> = Vec::new();
    let mut i: usize = 0;
    while rgba.len() - i >= 4
        invariant
            rgba.len() == rgba@.len(),
            i <= rgba@.len(),
            i % 4 == 0,
            rgb@.len() == i / 4 * 3,
            forall|k: int| 0 <= k < rgb@.len() ==> rgb@[k] == rgba@[k / 3 * 4 + k % 3],
        decreases rgba@.len() - i,
    {
        rgb.push(rgba[i]);
        rgb.push(rgba[i + 1]);
        rgb.push(rgba[i + 2]);
        i = i + 4;
    }
    assert(rgb@ =~= without_alpha(rgba@));
    rgb
}

/// A recording: where it goes, and how many frames it has.
#[derive(Debug)]
pub struct Recorder {
    dir: String,
    idx: u64,
}

impl Recorder {
    pub closed spec fn directory(self) -> Seq<char> {
        self.dir@
    }

    pub closed spec fn frames(self) -> u64 {
        self.idx
    }

    /// Begin a recording in a directory.
    pub fn start(dir: String) -> (r: Self)
        ensures
            r.directory() == dir@,
            r.frames() == 0,
    {
        Recorder { dir, idx: 0 }
    }

    pub fn dir(&self) -> (r: &str)
        ensures
            r@ == self.directory(),
    {
        self.dir.as_str()
    }

    pub fn frame_count(&self) -> (r: u64)
        ensures
            r == self.frames(),
    {
        self.idx
    }

    /// The number of the frame to record, if the desktop of `w` by `h` pixels is
    /// complete in `len` bytes and the interval has elapsed since the last one.
    pub fn maybe_capture(&mut self, w: u32, h: u32, len: usize, since_last_ms: u64) -> (r: Option<
        u64,
    >)
        ensures
            final(self).directory() == old(self).directory(),
            if w > 0 && h > 0 && len >= w * h * 4 && since_last_ms >= FRAME_INTERVAL_MS {
                r == Some(old(self).frames()) && final(self).frames()
                    == old(self).frames().wrapping_add(1)
            } else {
                r is None && final(self).frames() == old(self).frames()
            },
    {
        assert(w * h <= 0xFFFF_FFFF * 0xFFFF_FFFF) by (nonlinear_arith)
            requires
                w <= 0xFFFF_FFFF,
                h <= 0xFFFF_FFFF,
        ;
        if w == 0 || h == 0 || (len as u128) < w as u128 * h as u128 * 4 {
            return None;
        }
        if since_last_ms < FRAME_INTERVAL_MS {
            return None;
        }
        let idx: u64 = self.idx;
        self.idx = self.idx.wrapping_add(1);
        Some(idx)
    }
}

} // verus!
