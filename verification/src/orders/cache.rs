//! Caches the server populates via secondary orders and references from
//! primary orders: bitmaps (Cache Bitmap, read by MemBlt), glyphs and glyph
//! fragments (text orders), and color tables.

use crate::orders::canvas::{Bitmap, BitmapView};
use crate::orders::color::{rgba, Palette, Rgba};
use vstd::prelude::*;

verus! {

/// The waiting-list cache index (MS-RDPBCGR): bitmaps sent with this index are
/// transient.
pub const WAITING_LIST_INDEX: usize = 0x7FFF;

/// What a bitmap cache holds: its cells by `(cache_id, cache_index)`, and the
/// transient bitmap of each cache.
#[verifier::ext_equal]
pub struct BitmapCacheView {
    pub cells: Map<(int, int), BitmapView>,
    pub waiting: Map<int, BitmapView>,
}

impl BitmapCacheView {
    pub open spec fn empty() -> BitmapCacheView {
        BitmapCacheView { cells: Map::empty(), waiting: Map::empty() }
    }

    /// Every bitmap in the cache has four bytes per pixel.
    pub open spec fn wf(self) -> bool {
        &&& forall|k: (int, int)| self.cells.dom().contains(k) ==> (#[trigger] self.cells[k]).wf()
        &&& forall|k: int| self.waiting.dom().contains(k) ==> (#[trigger] self.waiting[k]).wf()
    }

    pub open spec fn insert(self, cache_id: int, cache_index: int, b: BitmapView) -> Self {
        BitmapCacheView { cells: self.cells.insert((cache_id, cache_index), b), ..self }
    }

    pub open spec fn insert_waiting(self, cache_id: int, b: BitmapView) -> Self {
        BitmapCacheView { waiting: self.waiting.insert(cache_id, b), ..self }
    }

    pub open spec fn get(self, cache_id: int, cache_index: int) -> Option<BitmapView> {
        if cache_index == WAITING_LIST_INDEX {
            if self.waiting.dom().contains(cache_id) {
                Some(self.waiting[cache_id])
            } else {
                None
            }
        } else if self.cells.dom().contains((cache_id, cache_index)) {
            Some(self.cells[(cache_id, cache_index)])
        } else {
            None
        }
    }
}

/// A bitmap cached under a real index is what the next look-up of that index
/// gives, and no other look-up changes.
pub proof fn law_bitmap_get_after_insert(
    c: BitmapCacheView,
    id: int,
    index: int,
    b: BitmapView,
    id2: int,
    index2: int,
)
    requires
        index != WAITING_LIST_INDEX,
    ensures
        c.insert(id, index, b).get(id, index) == Some(b),
        (id2, index2) != (id, index) ==> c.insert(id, index, b).get(id2, index2) == c.get(
            id2,
            index2,
        ),
{
}

/// A transient bitmap is read back under the waiting-list index, and never
/// takes the place of an explicitly indexed one.
pub proof fn law_waiting_never_aliases(
    c: BitmapCacheView,
    id: int,
    b: BitmapView,
    id2: int,
    index2: int,
)
    ensures
        c.insert_waiting(id, b).get(id, WAITING_LIST_INDEX as int) == Some(b),
        index2 != WAITING_LIST_INDEX ==> c.insert_waiting(id, b).get(id2, index2) == c.get(
            id2,
            index2,
        ),
        id2 != id ==> c.insert_waiting(id, b).get(id2, index2) == c.get(id2, index2),
{
}

/// Bitmap cache: indexed by `(cache_id, cache_index)`, grown on demand.
///
/// Tiles that the server will reuse are cached with an explicit index and later
/// blitted by MemBlt with that index. Tiles that it uses only once are cached
/// with the waiting-list index and blitted at once. The transient bitmaps must
/// not occupy real cells: they would clobber reusable tiles. So the
/// waiting-list index maps to one dedicated slot per `cache_id`.
pub struct BitmapCache {
    caches: Vec<Vec<Option<Bitmap>>>,
    waiting: Vec<Option<Bitmap>>,
}

impl View for BitmapCache {
    type V = BitmapCacheView;

    closed spec fn view(&self) -> BitmapCacheView {
        BitmapCacheView {
            cells: Map::new(
                |k: (int, int)|
                    0 <= k.0 < self.caches@.len() && 0 <= k.1 < self.caches@[k.0]@.len()
                        && self.caches@[k.0]@[k.1] is Some,
                |k: (int, int)| self.caches@[k.0]@[k.1]->0@,
            ),
            waiting: Map::new(
                |k: int| 0 <= k < self.waiting@.len() && self.waiting@[k] is Some,
                |k: int| self.waiting@[k]->0@,
            ),
        }
    }
}

impl Default for BitmapCache {
    fn default() -> (r: Self)
        ensures
            r@ == BitmapCacheView::empty(),
            r@.wf(),
    {
        Self::new()
    }
}

impl BitmapCache {
    pub fn new() -> (r: Self)
        ensures
            r@ == BitmapCacheView::empty(),
            r@.wf(),
    {
        let r = BitmapCache { caches: Vec::new(), waiting: Vec::new() };
        assert(r@ =~= BitmapCacheView::empty());
        r
    }

    pub fn insert(&mut self, cache_id: usize, cache_index: usize, bitmap: Bitmap)
        requires
            old(self)@.wf(),
            bitmap@.wf(),
            cache_id < usize::MAX,
            cache_index < usize::MAX,
        ensures
            final(self)@ == old(self)@.insert(cache_id as int, cache_index as int, bitmap@),
            final(self)@.wf(),
    {
        while self.caches.len() <= cache_id
            invariant
                self@ == old(self)@,
            decreases cache_id + 1 - self.caches@.len(),
        {
            let ghost before = self@;
            self.caches.push(Vec::new());
            assert(self@ =~= before);
        }
        let ghost grown = self.caches@;
        let cache: &mut Vec<Option<Bitmap>> = &mut self.caches[cache_id];
        let ghost cells0 = cache@;
        while cache.len() <= cache_index
            invariant
                cells0.len() <= cache@.len(),
                forall|i: int| 0 <= i < cells0.len() ==> cache@[i] == cells0[i],
                forall|i: int| cells0.len() <= i < cache@.len() ==> cache@[i] is None,
            decreases cache_index + 1 - cache@.len(),
        {
            cache.push(None);
        }
        cache[cache_index] = Some(bitmap);
        assert(self@ =~= old(self)@.insert(cache_id as int, cache_index as int, bitmap@));
    }

    /// Store a bitmap cached with the waiting-list index in this cache's
    /// dedicated transient slot, not in a real cell. It is read back via
    /// `get(cache_id, 0x7FFF)` (the MemBlt that immediately follows).
    pub fn insert_waiting(&mut self, cache_id: usize, bitmap: Bitmap)
        requires
            old(self)@.wf(),
            bitmap@.wf(),
            cache_id < usize::MAX,
        ensures
            final(self)@ == old(self)@.insert_waiting(cache_id as int, bitmap@),
            final(self)@.wf(),
    {
        while self.waiting.len() <= cache_id
            invariant
                self@ == old(self)@,
            decreases cache_id + 1 - self.waiting@.len(),
        {
            let ghost before = self@;
            self.waiting.push(None);
            assert(self@ =~= before);
        }
        self.waiting[cache_id] = Some(bitmap);
        assert(self@ =~= old(self)@.insert_waiting(cache_id as int, bitmap@));
    }

    pub fn get(&self, cache_id: usize, cache_index: usize) -> (r: Option<&Bitmap>)
        ensures
            match r {
                Some(b) => self@.get(cache_id as int, cache_index as int) == Some(b@),
                None => self@.get(cache_id as int, cache_index as int) is None,
            },
    {
        if cache_index == WAITING_LIST_INDEX {
            if cache_id < self.waiting.len() {
                return self.waiting[cache_id].as_ref();
            }
            return None;
        }
        if cache_id < self.caches.len() && cache_index < self.caches[cache_id].len() {
            return self.caches[cache_id][cache_index].as_ref();
        }
        None
    }
}

/// A cached glyph: a 1-bpp bitmap plus its origin bearing (x,y offset applied
/// when the glyph is drawn). `aj` is `ceil(cx/8)` bytes per row, MSB-first.
#[derive(Clone, Debug)]
pub struct Glyph {
    pub x: i16,
    pub y: i16,
    pub cx: u16,
    pub cy: u16,
    pub aj: Vec<u8>,
}

#[verifier::ext_equal]
pub struct GlyphView {
    pub x: i16,
    pub y: i16,
    pub cx: u16,
    pub cy: u16,
    pub aj: Seq<u8>,
}

impl View for Glyph {
    type V = GlyphView;

    open spec fn view(&self) -> GlyphView {
        GlyphView { x: self.x, y: self.y, cx: self.cx, cy: self.cy, aj: self.aj@ }
    }
}

/// What a glyph cache holds: glyphs by `(cache_id, cache_index)` and the
/// fragments by id (an id below the highest one used, but never stored under,
/// holds no bytes).
#[verifier::ext_equal]
pub struct GlyphCacheView {
    pub cells: Map<(int, int), GlyphView>,
    pub fragments: Seq<Seq<u8>>,
}

impl GlyphCacheView {
    pub open spec fn empty() -> GlyphCacheView {
        GlyphCacheView { cells: Map::empty(), fragments: Seq::empty() }
    }

    pub open spec fn insert(self, cache_id: int, cache_index: int, g: GlyphView) -> Self {
        GlyphCacheView { cells: self.cells.insert((cache_id, cache_index), g), ..self }
    }

    pub open spec fn get(self, cache_id: int, cache_index: int) -> Option<GlyphView> {
        if self.cells.dom().contains((cache_id, cache_index)) {
            Some(self.cells[(cache_id, cache_index)])
        } else {
            None
        }
    }

    pub open spec fn put_fragment(self, id: int, bytes: Seq<u8>) -> Self {
        GlyphCacheView {
            fragments: Seq::new(
                if id < self.fragments.len() {
                    self.fragments.len()
                } else {
                    (id + 1) as nat
                },
                |i: int|
                    if i == id {
                        bytes
                    } else if i < self.fragments.len() {
                        self.fragments[i]
                    } else {
                        Seq::empty()
                    },
            ),
            ..self
        }
    }

    pub open spec fn fragment(self, id: int) -> Option<Seq<u8>> {
        if 0 <= id < self.fragments.len() {
            Some(self.fragments[id])
        } else {
            None
        }
    }
}

/// A stored fragment is read back as stored; other stored fragments and all
/// glyphs are left alone.
pub proof fn law_fragment_after_put(
    c: GlyphCacheView,
    id: int,
    bytes: Seq<u8>,
    other: int,
    cache_id: int,
    cache_index: int,
)
    requires
        0 <= id,
    ensures
        c.put_fragment(id, bytes).fragment(id) == Some(bytes),
        other != id && c.fragment(other) is Some ==> c.put_fragment(id, bytes).fragment(other)
            == c.fragment(other),
        c.put_fragment(id, bytes).get(cache_id, cache_index) == c.get(cache_id, cache_index),
{
}

/// A cached glyph is what the next look-up gives; other glyphs and all fragments
/// are left alone.
pub proof fn law_glyph_get_after_insert(
    c: GlyphCacheView,
    id: int,
    index: int,
    g: GlyphView,
    id2: int,
    index2: int,
    fragment: int,
)
    ensures
        c.insert(id, index, g).get(id, index) == Some(g),
        (id2, index2) != (id, index) ==> c.insert(id, index, g).get(id2, index2) == c.get(
            id2,
            index2,
        ),
        c.insert(id, index, g).fragment(fragment) == c.fragment(fragment),
{
}

/// Glyph cache, indexed by `(cache_id, cache_index)`. Populated by Cache Glyph
/// secondary orders, read by GlyphIndex/FastIndex/FastGlyph primary orders. Also
/// holds the glyph fragment cache (sequences of glyph-index bytes the server
/// caches via the 0xFF escape and replays via 0xFE).
pub struct GlyphCache {
    caches: Vec<Vec<Option<Glyph>>>,
    fragments: Vec<Vec<u8>>,
}

impl View for GlyphCache {
    type V = GlyphCacheView;

    closed spec fn view(&self) -> GlyphCacheView {
        GlyphCacheView {
            cells: Map::new(
                |k: (int, int)|
                    0 <= k.0 < self.caches@.len() && 0 <= k.1 < self.caches@[k.0]@.len()
                        && self.caches@[k.0]@[k.1] is Some,
                |k: (int, int)| self.caches@[k.0]@[k.1]->0@,
            ),
            fragments: Seq::new(self.fragments@.len(), |i: int| self.fragments@[i]@),
        }
    }
}

impl Default for GlyphCache {
    fn default() -> (r: Self)
        ensures
            r@ == GlyphCacheView::empty(),
    {
        Self::new()
    }
}

impl GlyphCache {
    pub fn new() -> (r: Self)
        ensures
            r@ == GlyphCacheView::empty(),
    {
        let r = GlyphCache { caches: Vec::new(), fragments: Vec::new() };
        assert(r@ =~= GlyphCacheView::empty());
        r
    }

    pub fn insert(&mut self, cache_id: usize, cache_index: usize, glyph: Glyph)
        requires
            cache_id < usize::MAX,
            cache_index < usize::MAX,
        ensures
            final(self)@ == old(self)@.insert(cache_id as int, cache_index as int, glyph@),
    {
        while self.caches.len() <= cache_id
            invariant
                self@ == old(self)@,
            decreases cache_id + 1 - self.caches@.len(),
        {
            let ghost before = self@;
            self.caches.push(Vec::new());
            assert(self@ =~= before);
        }
        let cache: &mut Vec<Option<Glyph>> = &mut self.caches[cache_id];
        let ghost cells0 = cache@;
        while cache.len() <= cache_index
            invariant
                cells0.len() <= cache@.len(),
                forall|i: int| 0 <= i < cells0.len() ==> cache@[i] == cells0[i],
                forall|i: int| cells0.len() <= i < cache@.len() ==> cache@[i] is None,
            decreases cache_index + 1 - cache@.len(),
        {
            cache.push(None);
        }
        cache[cache_index] = Some(glyph);
        assert(self@ =~= old(self)@.insert(cache_id as int, cache_index as int, glyph@));
    }

    pub fn get(&self, cache_id: usize, cache_index: usize) -> (r: Option<&Glyph>)
        ensures
            match r {
                Some(g) => self@.get(cache_id as int, cache_index as int) == Some(g@),
                None => self@.get(cache_id as int, cache_index as int) is None,
            },
    {
        if cache_id < self.caches.len() && cache_index < self.caches[cache_id].len() {
            return self.caches[cache_id][cache_index].as_ref();
        }
        None
    }

    /// Cache a glyph-fragment byte sequence (the 0xFF "add to cache" escape).
    pub fn put_fragment(&mut self, id: usize, bytes: &[u8])
        requires
            id < usize::MAX,
        ensures
            final(self)@ == old(self)@.put_fragment(id as int, bytes@),
    {
        let ghost n0 = self.fragments@.len();
        while self.fragments.len() <= id
            invariant
                self.caches == old(self).caches,
                n0 == old(self).fragments@.len() <= self.fragments@.len(),
                self.fragments@.len() <= n0 || self.fragments@.len() <= id + 1,
                forall|i: int| 0 <= i < n0 ==> self.fragments@[i] == old(self).fragments@[i],
                forall|i: int| n0 <= i < self.fragments@.len() ==> self.fragments@[i]@.len() == 0,
            decreases id + 1 - self.fragments@.len(),
        {
            self.fragments.push(Vec::new());
        }
        self.fragments[id] = vstd::slice::slice_to_vec(bytes);
        assert forall|i: int| 0 <= i < self@.fragments.len() implies self@.fragments[i]
            =~= old(self)@.put_fragment(id as int, bytes@).fragments[i] by {}
        assert(self@.fragments =~= old(self)@.put_fragment(id as int, bytes@).fragments);
        assert(self@ =~= old(self)@.put_fragment(id as int, bytes@));
    }

    /// Look up a cached fragment (the 0xFE "use from cache" escape).
    pub fn fragment(&self, id: usize) -> (r: Option<&[u8]>)
        ensures
            match r {
                Some(s) => self@.fragment(id as int) == Some(s@),
                None => self@.fragment(id as int) is None,
            },
    {
        if id < self.fragments.len() {
            Some(self.fragments[id].as_slice())
        } else {
            None
        }
    }
}

/// Color-table (palette) cache for 8 bpp sessions.
pub struct PaletteCache {
    tables: Vec<Option<Box<Palette>>>,
}

/// A color table as its 256 colors.
pub open spec fn colors(table: Palette) -> Seq<Rgba> {
    Seq::new(256, |i: int| rgba(table[i]))
}

impl View for PaletteCache {
    type V = Map<int, Seq<Rgba>>;

    closed spec fn view(&self) -> Map<int, Seq<Rgba>> {
        Map::new(
            |k: int| 0 <= k < self.tables@.len() && self.tables@[k] is Some,
            |k: int| colors(*self.tables@[k]->0),
        )
    }
}

impl Default for PaletteCache {
    fn default() -> (r: Self)
        ensures
            r@ == Map::<int, Seq<Rgba>>::empty(),
    {
        Self::new()
    }
}

impl PaletteCache {
    pub fn new() -> (r: Self)
        ensures
            r@ == Map::<int, Seq<Rgba>>::empty(),
    {
        let r = PaletteCache { tables: Vec::new() };
        assert(r@ =~= Map::<int, Seq<Rgba>>::empty());
        r
    }

    pub fn insert(&mut self, index: usize, table: Box<Palette>)
        requires
            index < usize::MAX,
        ensures
            final(self)@ == old(self)@.insert(index as int, colors(*table)),
    {
        while self.tables.len() <= index
            invariant
                self@ == old(self)@,
            decreases index + 1 - self.tables@.len(),
        {
            let ghost before = self@;
            self.tables.push(None);
            assert(self@ =~= before);
        }
        self.tables[index] = Some(table);
        assert(self@ =~= old(self)@.insert(index as int, colors(*table)));
    }

    pub fn get(&self, index: usize) -> (r: Option<&Palette>)
        ensures
            match r {
                Some(t) => self@.dom().contains(index as int) && self@[index as int] == colors(*t),
                None => !self@.dom().contains(index as int),
            },
    {
        if index < self.tables.len() {
            match &self.tables[index] {
                Some(t) => Some(&**t),
                None => None,
            }
        } else {
            None
        }
    }
}

} // verus!
