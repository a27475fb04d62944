pub mod allocator;
pub mod pixels;

use vstd::prelude::*;
use std::collections::HashMap;
use std::hash::Hash;
use crate::atlas::allocator::{AtlasAllocator, Rect, cells_overlap, holds, lemma_cells_overlap};
use vstd::std_specs::hash::obeys_key_model;
use crate::atlas::pixels::{PixelBuffer, pixel_at, lemma_index_in, lemma_index_unique};

verus! {

broadcast use vstd::std_specs::hash::group_hash_axioms;

/// Where an image was placed in the atlas, without its padding.
#[derive(Debug, Clone, Copy)]
pub struct AtlasEntry {
    pub x: u32,
    pub y: u32,
    pub width: u32,
    pub height: u32,
}

/// Whether cell (`px`, `py`) of the atlas lies in the image placed at `e`.
pub open spec fn in_entry(e: AtlasEntry, px: int, py: int) -> bool {
    e.x <= px < e.x + e.width && e.y <= py < e.y + e.height
}

/// Whether the image placed at `e` lies inside rectangle `r`.
pub open spec fn entry_within(e: AtlasEntry, r: Rect) -> bool {
    r.x <= e.x && e.x + e.width <= r.x + r.w && r.y <= e.y && e.y + e.height <= r.y + r.h
}

/// Whether some cell of the atlas lies in both the image at `a` and the image at `b`.
pub open spec fn entries_share_cell(a: AtlasEntry, b: AtlasEntry) -> bool {
    exists|px: int, py: int| in_entry(a, px, py) && in_entry(b, px, py)
}

/// Images inside two rectangles that share no cell share no cell either.
pub proof fn lemma_within_apart(a: AtlasEntry, ra: Rect, b: AtlasEntry, rb: Rect)
    requires
        entry_within(a, ra),
        entry_within(b, rb),
        !cells_overlap(ra, rb),
    ensures
        !entries_share_cell(a, b),
{
    lemma_cells_overlap(ra, rb);
    if entries_share_cell(a, b) {
        let (px, py) = choose|px: int, py: int| in_entry(a, px, py) && in_entry(b, px, py);
        assert(holds(ra, px, py) && holds(rb, px, py));
    }
}

/// Sharing a cell does not depend on the order of the two images.
pub proof fn lemma_share_sym(a: AtlasEntry, b: AtlasEntry)
    ensures
        entries_share_cell(a, b) == entries_share_cell(b, a),
{
    if entries_share_cell(a, b) {
        let (px, py) = choose|px: int, py: int| in_entry(a, px, py) && in_entry(b, px, py);
        assert(in_entry(b, px, py) && in_entry(a, px, py));
    }
    if entries_share_cell(b, a) {
        let (px, py) = choose|px: int, py: int| in_entry(b, px, py) && in_entry(a, px, py);
        assert(in_entry(a, px, py) && in_entry(b, px, py));
    }
}

/// The pixel at (`px`, `py`) of `old` pixels `w` to a row, once image `src` is
/// copied to the place `e`.
pub open spec fn stamped<P>(old: Seq<P>, w: int, src: PixelBuffer<P>, e: AtlasEntry, px: int, py: int) -> P {
    if in_entry(e, px, py) {
        pixel_at(src.pixels@, src.width as int, px - e.x, py - e.y)
    } else {
        pixel_at(old, w, px, py)
    }
}

/// An image copied into the atlas reads back unchanged from the place it was
/// given: the pixel at (`sx`, `sy`) of `src` is the atlas pixel at that offset from
/// the corner of its entry.
pub proof fn lemma_read_back<P>(old: Seq<P>, new: Seq<P>, w: int, h: int, src: PixelBuffer<P>, e: AtlasEntry, sx: int, sy: int)
    requires
        e.width == src.width,
        e.height == src.height,
        e.x + e.width <= w,
        e.y + e.height <= h,
        0 <= sx < src.width,
        0 <= sy < src.height,
        forall|px: int, py: int|
            0 <= px < w && 0 <= py < h ==> #[trigger] pixel_at(new, w, px, py) == stamped(old, w, src, e, px, py),
    ensures
        pixel_at(new, w, e.x + sx, e.y + sy) == pixel_at(src.pixels@, src.width as int, sx, sy),
{
    assert(pixel_at(new, w, e.x + sx, e.y + sy) == stamped(old, w, src, e, e.x + sx, e.y + sy));
}

/// Images packed into one, each found again by its key.
pub struct Atlas<T, P, A: AtlasAllocator> {
    pub image: PixelBuffer<P>,
    pub table: HashMap<T, AtlasEntry>,
    allocator: A,
    width: u32,
    height: u32,
    padding: u32,
}

impl<T: Hash + Eq + Copy, P: Copy, A: AtlasAllocator> Atlas<T, P, A> {
    /// Whether the image is the atlas's size and the allocator places nothing outside it.
    pub closed spec fn wf(&self) -> bool {
        &&& self.image.wf()
        &&& self.image.width == self.width
        &&& self.image.height == self.height
        &&& self.allocator.well_formed()
        &&& obeys_key_model::<T>() ==> self.entries_placed()
        &&& obeys_key_model::<T>() ==> self.entries_apart()
    }

    /// Whether each recorded image lies inside a rectangle the allocator placed.
    pub closed spec fn entries_placed(&self) -> bool {
        forall|k: T| #[trigger] self.table@.contains_key(k) ==> exists|i: int|
            0 <= i < self.allocator.spec_placed().len() && #[trigger] entry_within(self.table@[k], self.allocator.spec_placed()[i])
    }

    /// Whether no two images recorded under different keys share a cell.
    pub closed spec fn entries_apart(&self) -> bool {
        forall|k1: T, k2: T| #[trigger] self.table@.contains_key(k1) && #[trigger] self.table@.contains_key(k2) && k1 != k2
            ==> !entries_share_cell(self.table@[k1], self.table@[k2])
    }

    /// The rectangles the allocator has placed, padding included, in order.
    pub closed spec fn spec_placed(&self) -> Seq<Rect> {
        self.allocator.spec_placed()
    }

    /// The allocator that places the images.
    pub closed spec fn spec_allocator(&self) -> A {
        self.allocator
    }

    /// The atlas's pixels.
    pub closed spec fn spec_image(&self) -> PixelBuffer<P> {
        self.image
    }

    /// Where each image went, by key.
    pub closed spec fn spec_table(&self) -> Map<T, AtlasEntry> {
        self.table@
    }

    /// The width of the atlas.
    pub closed spec fn spec_width(&self) -> u32 {
        self.width
    }

    /// The height of the atlas.
    pub closed spec fn spec_height(&self) -> u32 {
        self.height
    }

    /// The blank margin kept around each image.
    pub closed spec fn spec_padding(&self) -> u32 {
        self.padding
    }

    /// Whether this atlas is `before` once `src` was copied to the place `e`, inside
    /// the padding and the atlas, and recorded there under `key`.
    pub open spec fn placed(&self, before: Self, key: T, src: PixelBuffer<P>, e: AtlasEntry) -> bool {
        &&& e.width == src.width && e.height == src.height
        &&& e.x >= before.spec_padding() && e.y >= before.spec_padding()
        &&& e.width == 0 || e.height == 0 || (e.x + e.width <= before.spec_width()
            && e.y + e.height <= before.spec_height())
        &&& obeys_key_model::<T>() ==> self.spec_table() == before.spec_table().insert(key, e)
        &&& forall|px: int, py: int|
            0 <= px < before.spec_width() && 0 <= py < before.spec_height() ==> #[trigger] pixel_at(
                self.spec_image().pixels@,
                before.spec_width() as int,
                px,
                py,
            ) == stamped(before.spec_image().pixels@, before.spec_width() as int, src, e, px, py)
    }

    /// Images recorded under two different keys never share a cell of the atlas.
    pub proof fn lemma_entries_apart(&self, k1: T, k2: T)
        requires
            self.wf(),
            obeys_key_model::<T>(),
            self.spec_table().contains_key(k1),
            self.spec_table().contains_key(k2),
            k1 != k2,
        ensures
            forall|px: int, py: int| !(in_entry(self.spec_table()[k1], px, py) && in_entry(self.spec_table()[k2], px, py)),
    {
        assert(self.table@.contains_key(k1) && self.table@.contains_key(k2));
        assert(!entries_share_cell(self.table@[k1], self.table@[k2]));
    }

    /// Whether `src` can be given to `add_image`: its size with the padding on every side
    /// fits a `u32`, and wherever the allocator would put it, its pixels land inside the
    /// atlas.
    pub open spec fn can_take(&self, src: PixelBuffer<P>) -> bool {
        let p = self.spec_padding();
        &&& src.width + 2 * p <= u32::MAX
        &&& src.height + 2 * p <= u32::MAX
        &&& self.spec_allocator().spec_place((src.width + 2 * p) as u32, (src.height + 2 * p) as u32) matches Some((x, y))
            ==> src.width == 0 || src.height == 0 || (x + p + src.width <= self.spec_width()
                && y + p + src.height <= self.spec_height())
    }

    /// Whether `src` can be given to `add_image`.
    pub fn can_add(&self, src: &PixelBuffer<P>) -> (b: bool)
        requires
            self.wf(),
        ensures
            b == self.can_take(*src),
    {
        let p = self.padding as u64;
        if src.width as u64 + 2 * p > u32::MAX as u64 || src.height as u64 + 2 * p > u32::MAX as u64 {
            return false;
        }
        let alloc_w = src.width + 2 * self.padding;
        let alloc_h = src.height + 2 * self.padding;
        match self.allocator.place(alloc_w, alloc_h) {
            Some((x, y)) => src.width == 0 || src.height == 0 || (x as u64 + p + src.width as u64 <= self.width as u64
                && y as u64 + p + src.height as u64 <= self.height as u64),
            None => true,
        }
    }

    /// An empty `width` by `height` atlas, every pixel `blank`, whose images are placed
    /// by `allocator` with `padding` blank pixels around each.
    pub fn new(width: u32, height: u32, allocator: A, padding: u32, blank: P) -> (a: Self)
        requires
            allocator.well_formed(),
            width as int * height as int <= usize::MAX,
        ensures
            a.wf(),
            a.spec_width() == width,
            a.spec_height() == height,
            a.spec_padding() == padding,
            a.spec_image().width == width,
            a.spec_image().height == height,
            forall|i: int| 0 <= i < a.spec_image().pixels@.len() ==> #[trigger] a.spec_image().pixels@[i] == blank,
            a.spec_table() == Map::<T, AtlasEntry>::empty(),
            a.spec_placed() == allocator.spec_placed(),
            a.spec_allocator() == allocator,
    {
        Atlas {
            image: PixelBuffer::new(width, height, blank),
            table: HashMap::new(),
            allocator,
            width,
            height,
            padding,
        }
    }

    /// Asks the allocator for room for `src` with its padding on every side, copies its
    /// pixels inside that padding and records the place under `key`; fails with "Atlas
    /// Full", changing nothing, when the allocator finds no room.
    pub fn add_image(&mut self, key: T, src: &PixelBuffer<P>) -> (r: Result<(), &'static str>)
        requires
            old(self).wf(),
            src.wf(),
            old(self).can_take(*src),
        ensures
            final(self).wf(),
            final(self).spec_width() == old(self).spec_width(),
            final(self).spec_height() == old(self).spec_height(),
            final(self).spec_padding() == old(self).spec_padding(),
            final(self).spec_image().width == old(self).spec_image().width,
            final(self).spec_image().height == old(self).spec_image().height,
            r is Err ==> r == Err::<(), &'static str>("Atlas Full") && final(self).spec_image() == old(self).spec_image()
                && final(self).spec_table() == old(self).spec_table()
                && final(self).spec_placed() == old(self).spec_placed(),
            r is Err <==> old(self).spec_allocator().spec_place((src.width + 2 * old(self).spec_padding()) as u32,
                (src.height + 2 * old(self).spec_padding()) as u32) is None,
            r is Ok ==> {
                let last = final(self).spec_placed().last();
                let p = old(self).spec_padding();
                &&& old(self).spec_allocator().spec_place(last.w, last.h) == Some((last.x, last.y))
                &&& final(self).spec_placed() == old(self).spec_placed().push(last)
                &&& last.w == src.width + 2 * p
                &&& last.h == src.height + 2 * p
                &&& final(self).placed(*old(self), key, *src,
                    AtlasEntry { x: (last.x + p) as u32, y: (last.y + p) as u32, width: src.width, height: src.height })
            },
    {
        let w = src.width;
        let h = src.height;
        let p = self.padding;
        let alloc_w = w + 2 * p;
        let alloc_h = h + 2 * p;
        let (x, y) = match self.allocator.allocate(alloc_w, alloc_h) {
            Some(pos) => pos,
            None => {
                return Err("Atlas Full");
            },
        };
        assert(x + p <= u32::MAX && y + p <= u32::MAX);
        let entry = AtlasEntry { x: x + p, y: y + p, width: w, height: h };
        let ghost placed_before = old(self).spec_placed();
        let ghost slot = Rect { x, y, w: alloc_w, h: alloc_h };
        proof {
            let pl = self.allocator.spec_placed();
            assert(pl == placed_before.push(slot));
            if obeys_key_model::<T>() {
                assert forall|k: T| #[trigger] self.table@.contains_key(k) implies exists|i: int|
                    0 <= i < pl.len() && #[trigger] entry_within(self.table@[k], pl[i]) by {
                    let i = choose|i: int| 0 <= i < placed_before.len() && #[trigger] entry_within(self.table@[k], placed_before[i]);
                    assert(pl[i] == placed_before[i]);
                }
            }
            assert(entry_within(entry, slot));
        }
        let ghost old_pixels = self.image.pixels@;
        let ghost aw = self.width as int;
        let mut sy: u32 = 0;
        while sy < h
            invariant
                sy <= h,
                self.wf(),
                self.width == old(self).spec_width(),
                self.height == old(self).spec_height(),
                aw == self.width,
                src.wf(),
                w == src.width,
                h == src.height,
                entry == (AtlasEntry { x: (x + p) as u32, y: (y + p) as u32, width: w, height: h }),
                self.padding == old(self).spec_padding(),
                self.table@ == old(self).table@,
                self.allocator.spec_placed() == placed_before.push(slot),
                entry_within(entry, slot),
                w == 0 || h == 0 || (entry.x + w <= self.width && entry.y + h <= self.height),
                forall|px: int, py: int|
                    0 <= px < self.width && 0 <= py < self.height ==> #[trigger] pixel_at(self.image.pixels@, aw, px, py)
                        == if py < entry.y + sy { stamped(old_pixels, aw, *src, entry, px, py) } else { pixel_at(old_pixels, aw, px, py) },
            decreases h - sy,
        {
            let mut sx: u32 = 0;
            while sx < w
                invariant
                    sx <= w,
                    sy < h,
                    self.wf(),
                    self.width == old(self).spec_width(),
                    self.height == old(self).spec_height(),
                    aw == self.width,
                    src.wf(),
                    w == src.width,
                    h == src.height,
                    entry == (AtlasEntry { x: (x + p) as u32, y: (y + p) as u32, width: w, height: h }),
                    self.padding == old(self).spec_padding(),
                    self.table@ == old(self).table@,
                    self.allocator.spec_placed() == placed_before.push(slot),
                    entry_within(entry, slot),
                    w == 0 || (entry.x + w <= self.width && entry.y + h <= self.height),
                    forall|px: int, py: int|
                        0 <= px < self.width && 0 <= py < self.height ==> #[trigger] pixel_at(self.image.pixels@, aw, px, py)
                            == if py < entry.y + sy || (py == entry.y + sy && px < entry.x + sx) {
                                stamped(old_pixels, aw, *src, entry, px, py)
                            } else {
                                pixel_at(old_pixels, aw, px, py)
                            },
                decreases w - sx,
            {
                let pixel = src.get_pixel(sx, sy);
                let tx = entry.x + sx;
                let ty = entry.y + sy;
                let ghost before = self.image.pixels@;
                self.image.put_pixel(tx, ty, pixel);
                proof {
                    assert forall|px: int, py: int|
                        0 <= px < self.width && 0 <= py < self.height implies #[trigger] pixel_at(self.image.pixels@, aw, px, py)
                            == if py < entry.y + sy || (py == entry.y + sy && px < entry.x + sx + 1) {
                                stamped(old_pixels, aw, *src, entry, px, py)
                            } else {
                                pixel_at(old_pixels, aw, px, py)
                            } by {
                        lemma_index_in(px, py, aw, self.height as int);
                        if px != tx || py != ty {
                            lemma_index_unique(px, py, tx as int, ty as int, aw);
                            lemma_index_in(tx as int, ty as int, aw, self.height as int);
                            assert(pixel_at(before, aw, px, py) == pixel_at(self.image.pixels@, aw, px, py));
                        }
                    }
                }
                sx = sx + 1;
            }
            sy = sy + 1;
        }
        let ghost table_before = self.table@;
        self.table.insert(key, entry);
        proof {
            let pl = self.allocator.spec_placed();
            let n = placed_before.len() as int;
            assert(pl[n] == slot);
            if obeys_key_model::<T>() {
                assert forall|k: T| #[trigger] self.table@.contains_key(k) implies exists|i: int|
                    0 <= i < pl.len() && #[trigger] entry_within(self.table@[k], pl[i]) by {
                    if k == key {
                        assert(self.table@[k] == entry);
                        assert(entry_within(self.table@[k], pl[n]));
                    } else {
                        assert(table_before.contains_key(k));
                        let i = choose|i: int| 0 <= i < pl.len() && #[trigger] entry_within(table_before[k], pl[i]);
                        assert(self.table@[k] == table_before[k]);
                        assert(entry_within(self.table@[k], pl[i]));
                    }
                }
                assert forall|k1: T, k2: T| #[trigger] self.table@.contains_key(k1) && #[trigger] self.table@.contains_key(k2) && k1 != k2
                    implies !entries_share_cell(self.table@[k1], self.table@[k2]) by {
                    if k1 == key || k2 == key {
                        let k = if k1 == key { k2 } else { k1 };
                        assert(table_before.contains_key(k));
                        let i = choose|i: int| 0 <= i < placed_before.len() && #[trigger] entry_within(table_before[k], placed_before[i]);
                        assert(pl[i] == placed_before[i]);
                        assert(!cells_overlap(pl[i], pl[n]));
                        lemma_within_apart(table_before[k], pl[i], entry, pl[n]);
                        if k1 == key {
                            lemma_share_sym(entry, table_before[k]);
                        }
                    } else {
                        assert(table_before.contains_key(k1) && table_before.contains_key(k2));
                    }
                }
            }
        }
        assert(self.placed(*old(self), key, *src, entry));
        Ok(())
    }
}

} // verus!
