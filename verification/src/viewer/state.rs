//! What the session hands to the window: the picture of the desktop, the progress
//! text and the security of the link.

use crate::rdp::frame::UpdateRegion;
use crate::text::push_text;
use vstd::prelude::*;

verus! {

/// After this many milliseconds the whole picture is copied again, so that a region
/// that was reported too small does not stay wrong.
pub const RESYNC_MS: u64 = 300;

/// The picture that the window shows, with what stands round it.
pub struct SharedFrame {
    pub rgba: Vec<u8>,
    pub width: u32,
    pub height: u32,
    /// How many graphics updates there were.
    pub frames: u64,
    /// Inbound bandwidth of the last interval.
    pub bytes_per_sec: u64,
    /// Progress text, shown until the first picture is there.
    pub status: String,
    /// Security summary for the toolbar.
    pub security: String,
    /// Whether the link is encrypted and the server verified.
    pub secure: bool,
    /// Whether the link is encrypted.
    pub encrypted: bool,
}

pub open spec fn at_most(a: int, b: int) -> int {
    if a <= b {
        a
    } else {
        b
    }
}

pub open spec fn last(n: u32) -> int {
    if n == 0 {
        0
    } else {
        n - 1
    }
}

/// The last column of a region that is on the desktop.
pub open spec fn region_right(region: UpdateRegion, width: u32) -> int {
    at_most(region.right as int, last(width))
}

/// The last row of a region that is on the desktop.
pub open spec fn region_bottom(region: UpdateRegion, height: u32) -> int {
    at_most(region.bottom as int, last(height))
}

/// The first byte of a region's part of a row.
pub open spec fn row_start(region: UpdateRegion, width: u32, y: int) -> int {
    (y * width + region.left) * 4
}

/// The byte behind a region's part of a row.
pub open spec fn row_end(region: UpdateRegion, width: u32, y: int) -> int {
    (y * width + region_right(region, width) + 1) * 4
}

/// Whether a region's part of row `y` is all in a picture of `len` bytes and holds the
/// byte `i`.
pub open spec fn in_row(region: UpdateRegion, width: u32, len: int, y: int, i: int) -> bool {
    row_start(region, width, y) <= i < row_end(region, width, y) && row_end(region, width, y) <= len
}

/// Whether a byte of a picture of `len` bytes belongs to a region.
pub open spec fn touched(region: UpdateRegion, width: u32, height: u32, len: int, i: int) -> bool {
    exists|y: int|
        at_most(region.top as int, region_bottom(region, height)) <= y <= region_bottom(
            region,
            height,
        ) && #[trigger] in_row(region, width, len, y, i)
}

/// Whether a region can be copied from a picture of `len` bytes: it is not inverted, or
/// not even the end of its first row is there.
pub open spec fn copyable(region: UpdateRegion, width: u32, height: u32, len: int) -> bool {
    ||| region.left <= region_right(region, width) + 1
    ||| row_end(
        region,
        width,
        at_most(region.top as int, region_bottom(region, height)),
    ) > len
}

/// A picture with the bytes of a region taken from another.
pub open spec fn merged(
    old_rgba: Seq<u8>,
    src: Seq<u8>,
    region: UpdateRegion,
    width: u32,
    height: u32,
) -> Seq<u8> {
    Seq::new(
        src.len(),
        |i: int|
            if touched(region, width, height, src.len() as int, i) {
                src[i]
            } else {
                old_rgba[i]
            },
    )
}

impl SharedFrame {
    pub fn new() -> (f: Self)
        ensures
            f.rgba@.len() == 0,
            f.width == 0 && f.height == 0 && f.frames == 0 && f.bytes_per_sec == 0,
            f.status@.len() == 0 && f.security@.len() == 0,
            !f.secure && !f.encrypted,
    {
        SharedFrame {
            rgba: Vec::new(),
            width: 0,
            height: 0,
            frames: 0,
            bytes_per_sec: 0,
            status: String::new(),
            security: String::new(),
            secure: false,
            encrypted: false,
        }
    }

    /// Whether an update copies the whole picture: the first one, one of another size,
    /// and one that comes long enough after the last full copy.
    pub open spec fn wants_all(self, src: Seq<u8>, width: u32, height: u32, since: u64) -> bool {
        self.width != width || self.height != height || self.rgba@.len() != src.len() || since
            >= RESYNC_MS
    }

    /// Take over an update of the desktop, `since_full` milliseconds after the last
    /// full copy; only the rows of the region are copied where that is enough. Returns
    /// whether the whole picture was copied.
    pub fn update(
        &mut self,
        src: &[u8],
        width: u32,
        height: u32,
        region: UpdateRegion,
        since_full: u64,
    ) -> (full: bool)
        requires
            old(self).wants_all(src@, width, height, since_full) || copyable(
                region,
                width,
                height,
                src@.len() as int,
            ),
        ensures
            full == old(self).wants_all(src@, width, height, since_full),
            final(self).width == width,
            final(self).height == height,
            final(self).rgba@ == (if full {
                src@
            } else {
                merged(old(self).rgba@, src@, region, width, height)
            }),
            final(self).frames == old(self).frames.wrapping_add(1),
            final(self).status@.len() == 0,
            final(self).bytes_per_sec == old(self).bytes_per_sec,
            final(self).security == old(self).security,
            final(self).secure == old(self).secure,
            final(self).encrypted == old(self).encrypted,
    {
        let full: bool = self.width != width || self.height != height || self.rgba.len()
            != src.len() || since_full >= RESYNC_MS;
        if full {
            self.width = width;
            self.height = height;
            self.rgba = vstd::slice::slice_to_vec(src);
        } else if region.left as u64 <= (region.right as u32).min(width.saturating_sub(1)) as u64
            + 1 {
            merge(&mut self.rgba, src, region, width, height);
        } else {
            assert(self.rgba@ =~= merged(old(self).rgba@, src@, region, width, height));
        }
        self.frames = self.frames.wrapping_add(1);
        self.status = String::new();
        full
    }
}

/// Copy one row of a region.
fn merge_row(rgba: &mut Vec<u8>, src: &[u8], from: usize, to: usize)
    requires
        old(rgba)@.len() == src@.len(),
        from <= to <= src@.len(),
    ensures
        final(rgba)@ == Seq::new(
            src@.len(),
            |i: int|
                if from <= i < to {
                    src@[i]
                } else {
                    old(rgba)@[i]
                },
        ),
{
    let ghost before = rgba@;
    let mut i: usize = from;
    while i < to
        invariant
            from <= i <= to <= src@.len(),
            rgba@.len() == src@.len(),
            forall|k: int|
                0 <= k < src@.len() ==> #[trigger] rgba@[k] == (if from <= k < i {
                    src@[k]
                } else {
                    before[k]
                }),
        decreases to - i,
    {
        rgba.set(i, src[i]);
        i = i + 1;
    }
    assert(rgba@ =~= Seq::new(
        src@.len(),
        |i: int|
            if from <= i < to {
                src@[i]
            } else {
                before[i]
            },
    ));
}

/// Copy the rows of a region.
fn merge(rgba: &mut Vec<u8>, src: &[u8], region: UpdateRegion, width: u32, height: u32)
    requires
        old(rgba)@.len() == src@.len(),
        region.left <= region_right(region, width) + 1,
    ensures
        final(rgba)@ == merged(old(rgba)@, src@, region, width, height),
{
    let ghost before = rgba@;
    let len: u64 = src.len() as u64;
    let right: u32 = (region.right as u32).min(width.saturating_sub(1));
    let bottom: u32 = (region.bottom as u32).min(height.saturating_sub(1));
    let top: u32 = (region.top as u32).min(bottom);
    let mut y: u32 = top;
    assert(src.len() == src@.len());
    while y <= bottom
        invariant
            rgba@.len() == src@.len(),
            len == src@.len(),
            src@.len() <= usize::MAX,
            right == region_right(region, width),
            bottom == region_bottom(region, height),
            top == at_most(region.top as int, bottom as int),
            region.left <= right + 1,
            bottom <= 0xFFFF,
            top <= y <= bottom + 1,
            forall|i: int|
                0 <= i < src@.len() ==> #[trigger] rgba@[i] == (if exists|r: int|
                    top <= r < y && #[trigger] in_row(region, width, len as int, r, i) {
                    src@[i]
                } else {
                    before[i]
                }),
        decreases bottom + 1 - y,
    {
        proof {
            assert(0 <= y * width <= 0xFFFF * 0xFFFF_FFFF) by (nonlinear_arith)
                requires
                    0 <= y <= 0xFFFF,
                    0 <= width <= 0xFFFF_FFFF,
            ;
        }
        let from: u64 = (y as u64 * width as u64 + region.left as u64) * 4;
        let to: u64 = (y as u64 * width as u64 + right as u64 + 1) * 4;
        assert(from == row_start(region, width, y as int));
        assert(to == row_end(region, width, y as int));
        let ghost prev = rgba@;
        if to <= len {
            merge_row(rgba, src, from as usize, to as usize);
        }
        assert forall|i: int| 0 <= i < src@.len() implies #[trigger] rgba@[i] == (if exists|r: int|
            top <= r < y + 1 && #[trigger] in_row(region, width, len as int, r, i) {
            src@[i]
        } else {
            before[i]
        }) by {
            let here = in_row(region, width, len as int, y as int, i);
            assert(prev[i] == prev[i]);
            if here {
                assert(top <= y < y + 1);
            }
        }
        y = y + 1;
    }
    assert(rgba@ =~= merged(before, src@, region, width, height)) by {
        assert forall|i: int| 0 <= i < src@.len() implies #[trigger] rgba@[i] == merged(
            before,
            src@,
            region,
            width,
            height,
        )[i] by {
            if touched(region, width, height, src@.len() as int, i) {
                let r = choose|r: int|
                    at_most(region.top as int, region_bottom(region, height)) <= r
                        <= region_bottom(region, height) && #[trigger] in_row(
                        region,
                        width,
                        len as int,
                        r,
                        i,
                    );
                assert(top <= r < y && in_row(region, width, len as int, r, i));
            }
        }
    }
}

/// Where nothing outside the region changed, copying the region's rows is as good as
/// copying the whole picture.
pub proof fn law_region_copies_are_enough(
    old_rgba: Seq<u8>,
    src: Seq<u8>,
    region: UpdateRegion,
    width: u32,
    height: u32,
)
    requires
        old_rgba.len() == src.len(),
        forall|i: int|
            0 <= i < src.len() && !touched(region, width, height, src.len() as int, i)
                ==> #[trigger] old_rgba[i] == src[i],
    ensures
        merged(old_rgba, src, region, width, height) == src,
{
    assert(merged(old_rgba, src, region, width, height) =~= src);
}

/// The security summary that the toolbar shows.
pub open spec fn security_label(encrypted: bool, package: Option<Seq<char>>) -> Seq<char> {
    if !encrypted {
        "ONVERSLEUTELD"@
    } else {
        match package {
            Some(p) => p + " \u{00b7} versleuteld"@,
            None => "versleuteld"@,
        }
    }
}

pub open spec fn package_of(package: Option<&str>) -> Option<Seq<char>> {
    match package {
        Some(p) => Some(p@),
        None => None,
    }
}

/// The progress text while a connection is made.
pub open spec fn connecting_text(host: Seq<char>) -> Seq<char> {
    "Verbinden met "@ + host + "..."@
}

/// The progress text while a connection is made.
pub fn connecting_to(host: &str) -> (r: String)
    ensures
        r@ == connecting_text(host@),
{
    let mut s = String::from_str("Verbinden met ");
    push_text(&mut s, host);
    push_text(&mut s, "...");
    s
}

/// The text for a connection that took too long.
pub fn connect_timeout_text(host: &str) -> (r: String)
    ensures
        r@ == "verbinden met "@ + host@ + " duurde te lang (time-out)"@,
{
    let mut s = String::from_str("verbinden met ");
    push_text(&mut s, host);
    push_text(&mut s, " duurde te lang (time-out)");
    s
}

/// The window's title.
pub fn window_title(version: &str, host: &str) -> (r: String)
    ensures
        r@ == "SCCM RC "@ + version@ + " \u{2014} "@ + host@,
{
    let mut s = String::from_str("SCCM RC ");
    push_text(&mut s, version);
    push_text(&mut s, " \u{2014} ");
    push_text(&mut s, host);
    s
}

impl SharedFrame {
    /// Take over the security of a new link.
    pub fn set_security(&mut self, encrypted: bool, verified: bool, package: Option<&str>)
        ensures
            final(self).secure == (encrypted && verified),
            final(self).encrypted == encrypted,
            final(self).security@ == security_label(encrypted, package_of(package)),
            final(self).rgba == old(self).rgba,
            final(self).width == old(self).width,
            final(self).height == old(self).height,
            final(self).frames == old(self).frames,
            final(self).bytes_per_sec == old(self).bytes_per_sec,
            final(self).status == old(self).status,
    {
        self.secure = encrypted && verified;
        self.encrypted = encrypted;
        self.security = if !encrypted {
            String::from_str("ONVERSLEUTELD")
        } else {
            match package {
                Some(p) => {
                    let mut s = String::from_str(p);
                    push_text(&mut s, " \u{00b7} versleuteld");
                    s
                },
                None => String::from_str("versleuteld"),
            }
        };
    }

    /// Forget the picture and announce the connection to another host.
    pub fn start_over(&mut self, host: &str)
        ensures
            final(self).rgba@.len() == 0,
            final(self).width == 0 && final(self).height == 0 && final(self).frames == 0
                && final(self).bytes_per_sec == 0,
            final(self).status@ == connecting_text(host@),
            final(self).security@.len() == 0,
            !final(self).secure && !final(self).encrypted,
    {
        *self = SharedFrame::new();
        self.status = connecting_to(host);
    }

    /// Whether there is a picture to show.
    pub fn connected(&self) -> (r: bool)
        ensures
            r == (self.width != 0 && self.height != 0 && self.rgba@.len() > 0),
    {
        self.width != 0 && self.height != 0 && self.rgba.len() > 0
    }

    /// Whether a picture was painted, so that the window no longer animates.
    pub fn painted(&self) -> (r: bool)
        ensures
            r == (self.width != 0 && self.rgba@.len() > 0),
    {
        self.width != 0 && self.rgba.len() > 0
    }

    /// The text below the host's name while there is no picture.
    pub fn overlay_text(&self, closed: Option<&str>) -> (r: String)
        ensures
            r@ == (match closed {
                Some(reason) => "Verbinding verbroken \u{2014} "@ + reason@,
                None => if self.status@.len() == 0 {
                    "Verbinden..."@
                } else {
                    self.status@
                },
            }),
    {
        match closed {
            Some(reason) => {
                let mut s = String::from_str("Verbinding verbroken \u{2014} ");
                push_text(&mut s, reason);
                s
            },
            None => if self.status.as_str().unicode_len() == 0 {
                String::from_str("Verbinden...")
            } else {
                String::from_str(self.status.as_str())
            },
        }
    }
}

/// The state that the status line names.
pub fn state_text(connected: bool, closed: bool) -> (r: &'static str)
    ensures
        r@ == (if connected {
            "Connected"@
        } else if closed {
            "Disconnected"@
        } else {
            "Connecting..."@
        }),
{
    if connected {
        "Connected"
    } else if closed {
        "Disconnected"
    } else {
        "Connecting..."
    }
}

/// The mode that the status line names.
pub fn mode_text(view_only: bool) -> (r: &'static str)
    ensures
        r@ == (if view_only {
            "View Only"@
        } else {
            "Control"@
        }),
{
    if view_only {
        "View Only"
    } else {
        "Control"
    }
}

/// The color behind the overlay: dark red once the session is closed.
pub fn overlay_color(closed: bool) -> (r: u32)
    ensures
        r == (if closed {
            0x0040_0000u32
        } else {
            0x0020_2020u32
        }),
{
    if closed {
        0x0040_0000
    } else {
        0x0020_2020
    }
}

} // verus!
