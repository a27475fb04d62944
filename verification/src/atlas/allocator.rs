use vstd::prelude::*;

verus! {

/// A rectangle of atlas cells: `w` columns from `x` and `h` rows from `y`.
#[derive(Clone, Copy, Debug)]
pub struct Rect {
    pub x: u32,
    pub y: u32,
    pub w: u32,
    pub h: u32,
}

/// Whether the cell at column `px` and row `py` belongs to `r`.
pub open spec fn holds(r: Rect, px: int, py: int) -> bool {
    r.x <= px < r.x + r.w && r.y <= py < r.y + r.h
}

/// Whether `a` and `b` share a cell.
pub open spec fn cells_overlap(a: Rect, b: Rect) -> bool {
    &&& a.w > 0 && a.h > 0 && b.w > 0 && b.h > 0
    &&& a.x < b.x + b.w && b.x < a.x + a.w
    &&& a.y < b.y + b.h && b.y < a.y + a.h
}

/// Whether no two of the rectangles share a cell.
pub open spec fn pairwise_disjoint(s: Seq<Rect>) -> bool {
    forall|i: int, j: int| 0 <= i < s.len() && 0 <= j < s.len() && i != j ==> !cells_overlap(#[trigger] s[i], #[trigger] s[j])
}

/// Whether `r` lies inside a `width` by `height` atlas.
pub open spec fn in_bounds(r: Rect, width: int, height: int) -> bool {
    r.x + r.w <= width && r.y + r.h <= height
}

/// Two rectangles share a cell exactly when some cell belongs to both.
pub proof fn lemma_cells_overlap(a: Rect, b: Rect)
    ensures
        cells_overlap(a, b) <==> exists|px: int, py: int| holds(a, px, py) && holds(b, px, py),
{
    if cells_overlap(a, b) {
        let px = if a.x < b.x { b.x as int } else { a.x as int };
        let py = if a.y < b.y { b.y as int } else { a.y as int };
        assert(holds(a, px, py) && holds(b, px, py));
    }
}

/// Places rectangles in an atlas.
pub trait AtlasAllocator {
    /// Whether the allocator's state is consistent.
    spec fn well_formed(&self) -> bool;

    /// The width and height of the atlas.
    spec fn spec_dimensions(&self) -> (u32, u32);

    /// The rectangles placed so far, in order.
    spec fn spec_placed(&self) -> Seq<Rect>;

    /// Where `allocate` puts the top-left corner of a `w` by `h` rectangle in the present
    /// state, or `None` when it refuses it.
    spec fn spec_place(&self, w: u32, h: u32) -> Option<(u32, u32)>;

    /// Finds room for a `w` by `h` rectangle and gives its top-left corner, or `None`
    /// when there is no room. A placed rectangle ends above the bottom of the atlas,
    /// and left of its right edge unless it starts at the left edge.
    fn allocate(&mut self, w: u32, h: u32) -> (r: Option<(u32, u32)>)
        requires
            old(self).well_formed(),
        ensures
            final(self).well_formed(),
            final(self).spec_dimensions() == old(self).spec_dimensions(),
            r == old(self).spec_place(w, h),
            r matches Some((x, y)) ==> y + h <= old(self).spec_dimensions().1
                && (x + w <= old(self).spec_dimensions().0 || x == 0),
            final(self).spec_placed() == match r {
                Some((x, y)) => old(self).spec_placed().push(Rect { x, y, w, h }),
                None => old(self).spec_placed(),
            },
            pairwise_disjoint(final(self).spec_placed());

    /// Where a `w` by `h` rectangle would go now, without placing it.
    fn place(&self, w: u32, h: u32) -> (r: Option<(u32, u32)>)
        requires
            self.well_formed(),
        ensures
            r == self.spec_place(w, h);

    /// The width and height of the atlas.
    fn dimensions(&self) -> (r: (u32, u32))
        ensures
            r == self.spec_dimensions();
}

/// A shelf: a band of rows, filled from the left.
#[derive(Clone, Copy, Debug)]
pub struct Shelf {
    pub y: u32,
    pub height: u32,
    pub x_cursor: u32,
}

/// Whether allocation `a` lies on shelf `s`, left of its cursor.
pub open spec fn on_shelf(a: Rect, s: Shelf) -> bool {
    a.y == s.y && a.h <= s.height && a.x + a.w <= s.x_cursor
}

/// The first shelf, from `k` on, that a `w` by `h` rectangle fits on.
pub open spec fn first_shelf(sh: Seq<Shelf>, width: u32, w: u32, h: u32, k: int) -> Option<int>
    decreases sh.len() - k,
{
    if k < 0 || k >= sh.len() {
        None
    } else if h <= sh[k].height && sh[k].x_cursor + w <= width {
        Some(k)
    } else {
        first_shelf(sh, width, w, h, k + 1)
    }
}

/// Where a new shelf starts: right under the last one.
pub open spec fn next_shelf_y(sh: Seq<Shelf>) -> int {
    if sh.len() == 0 { 0 } else { sh.last().y + sh.last().height }
}

/// Places rectangles on shelves stacked from the top: each on the first shelf that is
/// high enough and has room left, or on a new shelf as high as the rectangle.
pub struct ShelfAllocator {
    width: u32,
    height: u32,
    shelves: Vec<Shelf>,
    allocations: Ghost<Seq<Rect>>,
}

impl ShelfAllocator {
    /// Whether the shelves are stacked from the top inside the atlas and every placed
    /// rectangle lies on a shelf, apart from the others.
    pub closed spec fn wf(&self) -> bool {
        let sh = self.shelves@;
        let a = self.allocations@;
        &&& forall|k: int| 0 <= k < sh.len() ==> #[trigger] sh[k].y + sh[k].height <= self.height
        &&& sh.len() > 0 ==> sh[0].y == 0
        &&& forall|k: int| 0 < k < sh.len() ==> #[trigger] sh[k].y == sh[k - 1].y + sh[k - 1].height
        &&& forall|k: int, m: int| 0 <= k < m < sh.len() ==> #[trigger] sh[k].y + sh[k].height <= #[trigger] sh[m].y
        &&& forall|i: int| 0 <= i < a.len() ==> exists|k: int| 0 <= k < sh.len() && on_shelf(#[trigger] a[i], sh[k])
        &&& pairwise_disjoint(a)
    }

    /// The width of the atlas.
    pub closed spec fn spec_width(&self) -> u32 {
        self.width
    }

    /// The height of the atlas.
    pub closed spec fn spec_height(&self) -> u32 {
        self.height
    }

    /// The shelves, from the top.
    pub closed spec fn spec_shelves(&self) -> Seq<Shelf> {
        self.shelves@
    }

    /// The rectangles placed so far, in order.
    pub closed spec fn spec_allocations(&self) -> Seq<Rect> {
        self.allocations@
    }

    /// The first shelf high enough for a `w` by `h` rectangle with room left for it.
    fn find_shelf(&self, w: u32, h: u32) -> (r: Option<usize>)
        ensures
            r matches Some(k) ==> first_shelf(self.spec_shelves(), self.spec_width(), w, h, 0) == Some(k as int)
                && k < self.spec_shelves().len() && h <= self.spec_shelves()[k as int].height
                && self.spec_shelves()[k as int].x_cursor + w <= self.spec_width(),
            r is None ==> first_shelf(self.spec_shelves(), self.spec_width(), w, h, 0) is None,
    {
        let ghost sh = self.shelves@;
        let mut k: usize = 0;
        while k < self.shelves.len()
            invariant
                k <= sh.len(),
                sh == self.spec_shelves(),
                first_shelf(sh, self.width, w, h, 0) == first_shelf(sh, self.width, w, h, k as int),
            decreases sh.len() - k,
        {
            let s = self.shelves[k];
            if h <= s.height && (s.x_cursor as u64) + (w as u64) <= self.width as u64 {
                return Some(k);
            }
            k = k + 1;
        }
        None
    }

    /// An empty `width` by `height` atlas.
    pub fn new(width: u32, height: u32) -> (s: Self)
        ensures
            s.spec_width() == width,
            s.spec_height() == height,
            s.spec_shelves().len() == 0,
            s.spec_allocations().len() == 0,
            s.wf(),
    {
        Self { width, height, shelves: Vec::new(), allocations: Ghost(Seq::empty()) }
    }
}

impl AtlasAllocator for ShelfAllocator {
    open spec fn well_formed(&self) -> bool {
        self.wf()
    }

    open spec fn spec_dimensions(&self) -> (u32, u32) {
        (self.spec_width(), self.spec_height())
    }

    open spec fn spec_placed(&self) -> Seq<Rect> {
        self.spec_allocations()
    }

    open spec fn spec_place(&self, w: u32, h: u32) -> Option<(u32, u32)> {
        let sh = self.spec_shelves();
        match first_shelf(sh, self.spec_width(), w, h, 0) {
            Some(k) => Some((sh[k].x_cursor, sh[k].y)),
            None => if next_shelf_y(sh) + h > self.spec_height() {
                None
            } else {
                Some((0u32, next_shelf_y(sh) as u32))
            },
        }
    }

    /// Places the rectangle on the first shelf that fits it, else on a new shelf under
    /// the last one, if the atlas is high enough. No two placed rectangles share a cell.
    fn allocate(&mut self, w: u32, h: u32) -> (r: Option<(u32, u32)>)
        ensures
            final(self).spec_width() == old(self).spec_width(),
            final(self).spec_height() == old(self).spec_height(),
            ({
                let sh = old(self).spec_shelves();
                match first_shelf(sh, old(self).spec_width(), w, h, 0) {
                    Some(k) => r == Some((sh[k].x_cursor, sh[k].y))
                        && final(self).spec_shelves() == sh.update(k, Shelf { x_cursor: (sh[k].x_cursor + w) as u32, ..sh[k] }),
                    None => if next_shelf_y(sh) + h > old(self).spec_height() {
                        r is None && final(self).spec_shelves() == sh
                    } else {
                        r == Some((0u32, next_shelf_y(sh) as u32))
                            && final(self).spec_shelves() == sh.push(Shelf { y: next_shelf_y(sh) as u32, height: h, x_cursor: w })
                    },
                }
            }),
            final(self).spec_allocations() == match r {
                Some((x, y)) => old(self).spec_allocations().push(Rect { x, y, w, h }),
                None => old(self).spec_allocations(),
            },
            pairwise_disjoint(final(self).spec_allocations()),
            r matches Some((x, y)) ==> y + h <= old(self).spec_height() && (w <= old(self).spec_width() ==> x + w <= old(self).spec_width()),
            r matches Some((x, y)) ==> x + w <= old(self).spec_width() || x == 0,
    {
        let ghost sh = self.shelves@;
        if let Some(k) = self.find_shelf(w, h) {
            {
                let s = self.shelves[k];
                let x = s.x_cursor;
                let y = s.y;
                let ghost placed = Rect { x, y, w, h };
                proof {
                    let a = self.allocations@;
                    assert forall|i: int| 0 <= i < a.len() implies !cells_overlap(#[trigger] a[i], placed) by {
                        let m = choose|m: int| 0 <= m < sh.len() && on_shelf(a[i], sh[m]);
                        if m < k {
                            assert(sh[m].y + sh[m].height <= sh[k as int].y);
                        } else if m > k {
                            assert(sh[k as int].y + sh[k as int].height <= sh[m].y);
                        }
                    }
                }
                self.shelves.set(k, Shelf { y: s.y, height: s.height, x_cursor: x + w });
                proof {
                    let a = self.allocations@;
                    assert forall|i: int| 0 <= i < a.len() implies exists|m: int| 0 <= m < self.shelves@.len()
                        && on_shelf(#[trigger] a[i], self.shelves@[m]) by {
                        let m = choose|m: int| 0 <= m < sh.len() && on_shelf(a[i], sh[m]);
                        assert(on_shelf(a[i], self.shelves@[m]));
                    }
                }
                self.allocations = Ghost(self.allocations@.push(placed));
                proof {
                    let a = self.allocations@;
                    assert(on_shelf(a[a.len() - 1], self.shelves@[k as int]));
                    assert forall|i: int| 0 <= i < a.len() implies exists|m: int| 0 <= m < self.shelves@.len()
                        && on_shelf(#[trigger] a[i], self.shelves@[m]) by {
                        if i == a.len() - 1 {
                            assert(on_shelf(a[i], self.shelves@[k as int]));
                        } else {
                            assert(a[i] == old(self).spec_allocations()[i]);
                        }
                    }
                }
                return Some((x, y));
            }
        }
        let y: u32 = if self.shelves.len() == 0 {
            0
        } else {
            let last = self.shelves[self.shelves.len() - 1];
            last.y + last.height
        };
        if (y as u64) + (h as u64) > self.height as u64 {
            return None;
        }
        let ghost placed = Rect { x: 0, y, w, h };
        proof {
            let a = self.allocations@;
            assert forall|i: int| 0 <= i < a.len() implies !cells_overlap(#[trigger] a[i], placed) by {
                let m = choose|m: int| 0 <= m < sh.len() && on_shelf(a[i], sh[m]);
                if m < sh.len() - 1 {
                    assert(sh[m].y + sh[m].height <= sh[sh.len() - 1].y);
                }
            }
        }
        self.shelves.push(Shelf { y, height: h, x_cursor: w });
        proof {
            let a = self.allocations@;
            assert forall|i: int| 0 <= i < a.len() implies exists|m: int| 0 <= m < self.shelves@.len()
                && on_shelf(#[trigger] a[i], self.shelves@[m]) by {
                let m = choose|m: int| 0 <= m < sh.len() && on_shelf(a[i], sh[m]);
                assert(on_shelf(a[i], self.shelves@[m]));
            }
            let s = self.shelves@;
            assert forall|k: int, m: int| 0 <= k < m < s.len() implies #[trigger] s[k].y + s[k].height <= #[trigger] s[m].y by {
                if m == s.len() - 1 && k < m - 1 {
                    assert(s[k].y + s[k].height <= s[m - 1].y);
                }
            }
        }
        self.allocations = Ghost(self.allocations@.push(placed));
        proof {
            let a = self.allocations@;
            let n = self.shelves@.len() - 1;
            assert forall|i: int| 0 <= i < a.len() implies exists|m: int| 0 <= m < self.shelves@.len()
                && on_shelf(#[trigger] a[i], self.shelves@[m]) by {
                if i == a.len() - 1 {
                    assert(on_shelf(a[i], self.shelves@[n]));
                } else {
                    assert(a[i] == old(self).spec_allocations()[i]);
                }
            }
            let sh2 = self.shelves@;
            assert(forall|k: int| 0 <= k < sh2.len() ==> #[trigger] sh2[k].y + sh2[k].height <= self.height);
            assert(sh2.len() > 0 ==> sh2[0].y == 0);
            assert(forall|k: int| 0 < k < sh2.len() ==> #[trigger] sh2[k].y == sh2[k - 1].y + sh2[k - 1].height);
            assert(pairwise_disjoint(a));
        }
        Some((0, y))
    }

    fn place(&self, w: u32, h: u32) -> (r: Option<(u32, u32)>) {
        if let Some(k) = self.find_shelf(w, h) {
            return Some((self.shelves[k].x_cursor, self.shelves[k].y));
        }
        let y: u32 = if self.shelves.len() == 0 {
            0
        } else {
            let last = self.shelves[self.shelves.len() - 1];
            assert(last.y + last.height <= self.height) by {
                let sh = self.shelves@;
                assert(sh[sh.len() - 1].y + sh[sh.len() - 1].height <= self.height);
            }
            last.y + last.height
        };
        assert(y == next_shelf_y(self.spec_shelves()));
        if (y as u64) + (h as u64) > self.height as u64 {
            None
        } else {
            Some((0, y))
        }
    }

    fn dimensions(&self) -> (r: (u32, u32)) {
        (self.width, self.height)
    }
}

/// Whether `a` holds every cell of `b`, by the same comparisons as the allocator makes.
pub open spec fn contains_rect(a: Rect, b: Rect) -> bool {
    a.x <= b.x && a.y <= b.y && a.x + a.w >= b.x + b.w && a.y + a.h >= b.y + b.h
}

/// Whether `a` and `b` overlap, by the allocator's test. Rectangles that share a cell
/// always pass it.
pub open spec fn overlaps_rect(a: Rect, b: Rect) -> bool {
    b.x < a.x + a.w && b.x + b.w > a.x && b.y < a.y + a.h && b.y + b.h > a.y
}

/// The strips of `free` left, right, above and below `used`, those that are not empty.
pub open spec fn strips_around(free: Rect, used: Rect) -> Seq<Rect> {
    let left = if used.x > free.x {
        seq![Rect { x: free.x, y: free.y, w: (used.x - free.x) as u32, h: free.h }]
    } else {
        Seq::empty()
    };
    let right = if used.x + used.w < free.x + free.w {
        seq![Rect { x: (used.x + used.w) as u32, y: free.y, w: ((free.x + free.w) - (used.x + used.w)) as u32, h: free.h }]
    } else {
        Seq::empty()
    };
    let top = if used.y > free.y {
        seq![Rect { x: free.x, y: free.y, w: free.w, h: (used.y - free.y) as u32 }]
    } else {
        Seq::empty()
    };
    let bottom = if used.y + used.h < free.y + free.h {
        seq![Rect { x: free.x, y: (used.y + used.h) as u32, w: free.w, h: ((free.y + free.h) - (used.y + used.h)) as u32 }]
    } else {
        Seq::empty()
    };
    left + right + top + bottom
}

/// Whether the sums of the coordinates of `r` fit in a `u32`.
pub open spec fn sums_fit(r: Rect) -> bool {
    r.x + r.w <= u32::MAX && r.y + r.h <= u32::MAX
}

/// A rectangle inside another shares a cell with no more rectangles than it.
pub proof fn lemma_inside_apart(f: Rect, s: Rect, u: Rect)
    requires
        contains_rect(f, s),
        !cells_overlap(f, u),
    ensures
        !cells_overlap(s, u),
{
}

/// The strips of a free rectangle around a rectangle that overlaps it lie inside it and
/// apart from that rectangle.
pub proof fn lemma_splits(free: Rect, used: Rect)
    requires
        sums_fit(free),
        sums_fit(used),
        overlaps_rect(free, used),
    ensures
        forall|k: int| 0 <= k < strips_around(free, used).len() ==> contains_rect(free, #[trigger] strips_around(free, used)[k])
            && !cells_overlap(strips_around(free, used)[k], used),
{
    let s = strips_around(free, used);
    assert forall|k: int| 0 <= k < s.len() implies contains_rect(free, #[trigger] s[k]) && !cells_overlap(s[k], used) by {
    }
}

/// The union of two rectangles that meet along a full edge shares a cell with a
/// rectangle only when one of them does.
pub proof fn lemma_merge_apart(a: Rect, b: Rect, m: Rect, u: Rect)
    requires
        !cells_overlap(a, u),
        !cells_overlap(b, u),
        (a.y == b.y && a.h == b.h && m.y == a.y && m.h == a.h && m.w == a.w + b.w
            && ((a.x + a.w == b.x && m.x == a.x) || (b.x + b.w == a.x && m.x == b.x)))
        || (a.x == b.x && a.w == b.w && m.x == a.x && m.w == a.w && m.h == a.h + b.h
            && ((a.y + a.h == b.y && m.y == a.y) || (b.y + b.h == a.y && m.y == b.y))),
    ensures
        !cells_overlap(m, u),
{
}

/// Whether some rectangle of `s` holds the cell at `px`, `py`.
pub open spec fn covered(s: Seq<Rect>, px: int, py: int) -> bool {
    exists|k: int| 0 <= k < s.len() && holds(#[trigger] s[k], px, py)
}

/// Whether `a` and `b` cover the same cells.
pub open spec fn same_cover(a: Seq<Rect>, b: Seq<Rect>) -> bool {
    forall|px: int, py: int| #[trigger] covered(a, px, py) <==> covered(b, px, py)
}

/// A rectangle that another one of the list contains can be taken out, by moving the
/// last one in its place, without changing the cells covered.
pub proof fn lemma_remove_contained(g: Seq<Rect>, j: int, i: int)
    requires
        0 <= i < g.len(),
        0 <= j < g.len(),
        i != j,
        contains_rect(g[i], g[j]),
    ensures
        same_cover(g.update(j, g.last()).drop_last(), g),
{
    let h = g.update(j, g.last()).drop_last();
    assert forall|px: int, py: int| #[trigger] covered(h, px, py) <==> covered(g, px, py) by {
        if covered(h, px, py) {
            let k = choose|k: int| 0 <= k < h.len() && holds(#[trigger] h[k], px, py);
            if k == j {
                assert(holds(g[g.len() - 1], px, py));
            } else {
                assert(holds(g[k], px, py));
            }
        }
        if covered(g, px, py) {
            let k = choose|k: int| 0 <= k < g.len() && holds(#[trigger] g[k], px, py);
            let k2 = if k == j { i } else { k };
            assert(holds(g[k2], px, py));
            if k2 == g.len() - 1 {
                assert(h[j] == g[k2]);
            } else {
                assert(h[k2] == g[k2]);
            }
        }
    }
}

/// Taking out a rectangle, by moving the last one in its place, leaves the cells that
/// the others cover.
pub proof fn lemma_swap_remove_cover(g: Seq<Rect>, i: int, px: int, py: int)
    requires
        0 <= i < g.len(),
    ensures
        covered(g, px, py) <==> covered(g.update(i, g.last()).drop_last(), px, py) || holds(g[i], px, py),
{
    let h = g.update(i, g.last()).drop_last();
    if covered(g, px, py) && !holds(g[i], px, py) {
        let k = choose|k: int| 0 <= k < g.len() && holds(#[trigger] g[k], px, py);
        if k == g.len() - 1 {
            assert(holds(h[i], px, py));
        } else {
            assert(holds(h[k], px, py));
        }
    }
    if covered(h, px, py) {
        let k = choose|k: int| 0 <= k < h.len() && holds(#[trigger] h[k], px, py);
        if k == i {
            assert(holds(g[g.len() - 1], px, py));
        } else {
            assert(holds(g[k], px, py));
        }
    }
}

/// The cells of a concatenation are those of its parts.
pub proof fn lemma_concat_cover(a: Seq<Rect>, b: Seq<Rect>, px: int, py: int)
    ensures
        covered(a + b, px, py) <==> covered(a, px, py) || covered(b, px, py),
{
    if covered(a + b, px, py) {
        let k = choose|k: int| 0 <= k < (a + b).len() && holds(#[trigger] (a + b)[k], px, py);
        if k < a.len() {
            assert(holds(a[k], px, py));
        } else {
            assert(holds(b[k - a.len()], px, py));
        }
    }
    if covered(a, px, py) {
        let k = choose|k: int| 0 <= k < a.len() && holds(#[trigger] a[k], px, py);
        assert(holds((a + b)[k], px, py));
    }
    if covered(b, px, py) {
        let k = choose|k: int| 0 <= k < b.len() && holds(#[trigger] b[k], px, py);
        assert(holds((a + b)[k + a.len()], px, py));
    }
}

/// The strips of a free rectangle around a rectangle that overlaps it cover exactly the
/// cells of the free rectangle outside that rectangle.
pub proof fn lemma_strips_cover(free: Rect, used: Rect, px: int, py: int)
    requires
        sums_fit(free),
        sums_fit(used),
        overlaps_rect(free, used),
    ensures
        covered(strips_around(free, used), px, py) <==> holds(free, px, py) && !holds(used, px, py),
{
    let s = strips_around(free, used);
    if holds(free, px, py) && !holds(used, px, py) {
        let left = if used.x > free.x { 1int } else { 0 };
        let right = if used.x + used.w < free.x + free.w { 1int } else { 0 };
        let top = if used.y > free.y { 1int } else { 0 };
        if px < used.x {
            assert(holds(s[0], px, py));
        } else if px >= used.x + used.w {
            assert(holds(s[left], px, py));
        } else if py < used.y {
            assert(holds(s[left + right], px, py));
        } else {
            assert(holds(s[left + right + top], px, py));
        }
    }
    if covered(s, px, py) {
        let k = choose|k: int| 0 <= k < s.len() && holds(#[trigger] s[k], px, py);
        assert(holds(s[k], px, py));
    }
}

/// The union of two rectangles that meet along a full edge holds exactly their cells.
pub proof fn lemma_merge_cells(a: Rect, b: Rect, m: Rect, px: int, py: int)
    requires
        (a.y == b.y && a.h == b.h && m.y == a.y && m.h == a.h && m.w == a.w + b.w
            && ((a.x + a.w == b.x && m.x == a.x) || (b.x + b.w == a.x && m.x == b.x)))
        || (a.x == b.x && a.w == b.w && m.x == a.x && m.w == a.w && m.h == a.h + b.h
            && ((a.y + a.h == b.y && m.y == a.y) || (b.y + b.h == a.y && m.y == b.y))),
    ensures
        holds(m, px, py) <==> holds(a, px, py) || holds(b, px, py),
        contains_rect(m, a),
        contains_rect(m, b),
{
}

/// Putting in place of a rectangle the union of it and another rectangle of the list
/// changes no covered cell.
pub proof fn lemma_replace_by_union(g: Seq<Rect>, i: int, j: int, m: Rect)
    requires
        0 <= i < g.len(),
        0 <= j < g.len(),
        i != j,
        forall|px: int, py: int| #[trigger] holds(m, px, py) <==> holds(g[i], px, py) || holds(g[j], px, py),
    ensures
        same_cover(g.update(i, m), g),
{
    let h = g.update(i, m);
    assert forall|px: int, py: int| #[trigger] covered(h, px, py) <==> covered(g, px, py) by {
        if covered(h, px, py) {
            let k = choose|k: int| 0 <= k < h.len() && holds(#[trigger] h[k], px, py);
            if k == i {
                assert(holds(m, px, py));
                if holds(g[i], px, py) {
                    assert(holds(g[i], px, py));
                } else {
                    assert(holds(g[j], px, py));
                }
            } else {
                assert(holds(g[k], px, py));
            }
        }
        if covered(g, px, py) {
            let k = choose|k: int| 0 <= k < g.len() && holds(#[trigger] g[k], px, py);
            if k == i {
                assert(holds(m, px, py));
                assert(holds(h[i], px, py));
            } else {
                assert(holds(h[k], px, py));
            }
        }
    }
}

/// Cells of a rectangle that shares none with `u` are not in `u`.
pub proof fn lemma_apart_cells(a: Rect, u: Rect, px: int, py: int)
    requires
        !cells_overlap(a, u),
        holds(a, px, py),
    ensures
        !holds(u, px, py),
{
    lemma_cells_overlap(a, u);
}

/// Places rectangles in the free rectangles of the atlas, choosing the free rectangle
/// whose shorter leftover side is the shortest; the free rectangles that the placed one
/// overlaps are cut into the strips around it.
pub struct MaxRectsAllocator {
    width: u32,
    height: u32,
    free_rects: Vec<Rect>,
    allocations: Ghost<Seq<Rect>>,
}

/// The shorter and the longer side left over when a `w` by `h` rectangle is placed in `f`.
pub open spec fn leftover(f: Rect, w: u32, h: u32) -> (int, int) {
    let dw = f.w - w;
    let dh = f.h - h;
    if dw < dh { (dw, dh) } else { (dh, dw) }
}

/// Whether leftover `a` is smaller than `b`: by the shorter side, then by the longer one.
pub open spec fn leftover_less(a: (int, int), b: (int, int)) -> bool {
    a.0 < b.0 || (a.0 == b.0 && a.1 < b.1)
}

/// The best leftover among the first `n` free rectangles that fit a `w` by `h` rectangle,
/// starting from the largest one, and the first free rectangle that gives it.
pub open spec fn best_fit(free: Seq<Rect>, w: u32, h: u32, n: int) -> ((int, int), Option<int>)
    decreases n,
{
    if n <= 0 {
        ((u32::MAX as int, u32::MAX as int), None)
    } else {
        let prev = best_fit(free, w, h, n - 1);
        let f = free[n - 1];
        if w <= f.w && h <= f.h && leftover_less(leftover(f, w, h), prev.0) {
            (leftover(f, w, h), Some(n - 1))
        } else {
            prev
        }
    }
}

/// The free rectangle chosen for a `w` by `h` rectangle, if one fits.
pub open spec fn best_fit_index(free: Seq<Rect>, w: u32, h: u32) -> Option<int> {
    best_fit(free, w, h, free.len() as int).1
}

/// The best-fit choice lies among the first `n` free rectangles and fits the rectangle.
pub proof fn lemma_best_fit(free: Seq<Rect>, w: u32, h: u32, n: int)
    requires
        n <= free.len(),
    ensures
        best_fit(free, w, h, n).1 matches Some(k) ==> 0 <= k < n && w <= free[k].w && h <= free[k].h,
    decreases n,
{
    if n > 0 {
        lemma_best_fit(free, w, h, n - 1);
    }
}

/// Whether `a` and `b` meet along a full edge: the same rows and touching columns, or
/// the same columns and touching rows.
pub open spec fn meets_along_edge(a: Rect, b: Rect) -> bool {
    ||| a.y == b.y && a.h == b.h && (a.x + a.w == b.x || b.x + b.w == a.x)
    ||| a.x == b.x && a.w == b.w && (a.y + a.h == b.y || b.y + b.h == a.y)
}

/// Whether two of the rectangles, at different positions, meet along a full edge.
pub open spec fn has_meeting_pair(s: Seq<Rect>) -> bool {
    exists|i: int, j: int| 0 <= i < s.len() && 0 <= j < s.len() && i != j && meets_along_edge(#[trigger] s[i], #[trigger] s[j])
}

/// Whether no rectangle, at one position, holds every cell of the rectangle at another.
pub open spec fn none_contained(s: Seq<Rect>) -> bool {
    forall|i: int, j: int| 0 <= i < s.len() && 0 <= j < s.len() && i != j ==> !contains_rect(#[trigger] s[i], #[trigger] s[j])
}

/// Whether every rectangle of `t` is one of the rectangles of `s`.
#[verifier::opaque]
pub open spec fn all_from(t: Seq<Rect>, s: Seq<Rect>) -> bool {
    forall|m: int| #![trigger t[m]] 0 <= m < t.len() ==> s.contains(t[m])
}

/// Whether `r` lies inside some rectangle of `t`.
pub open spec fn inside_some(t: Seq<Rect>, r: Rect) -> bool {
    exists|m: int| 0 <= m < t.len() && contains_rect(#[trigger] t[m], r)
}

/// Whether every rectangle of `s` lies inside some rectangle of `t`.
#[verifier::opaque]
pub open spec fn all_inside(s: Seq<Rect>, t: Seq<Rect>) -> bool {
    forall|n: int| 0 <= n < s.len() ==> inside_some(t, #[trigger] s[n])
}

/// Every rectangle is one of its own, and lies inside itself.
pub proof fn lemma_all_self(s: Seq<Rect>)
    ensures
        all_from(s, s),
        all_inside(s, s),
{
    reveal(all_from);
    reveal(all_inside);
    assert forall|m: int| #![trigger s[m]] 0 <= m < s.len() implies s.contains(s[m]) by {
        assert(s[m] == s[m]);
    }
    assert forall|n: int| 0 <= n < s.len() implies inside_some(s, #[trigger] s[n]) by {
        assert(contains_rect(s[n], s[n]));
    }
}

/// Taking out the rectangle at `x` by moving the last one there keeps every remaining
/// rectangle one of those before, and keeps every rectangle of `o` inside a remaining
/// one when the one taken out lies inside the one at `y`.
pub proof fn lemma_swap_remove_kept(s: Seq<Rect>, x: int, y: int, o: Seq<Rect>)
    requires
        0 <= x < s.len(),
        0 <= y < s.len(),
        y != x,
        contains_rect(s[y], s[x]),
        all_from(s, o),
        all_inside(o, s),
    ensures
        all_from(s.update(x, s.last()).drop_last(), o),
        all_inside(o, s.update(x, s.last()).drop_last()),
{
    reveal(all_from);
    reveal(all_inside);
    let t = s.update(x, s.last()).drop_last();
    assert forall|m: int| #![trigger t[m]] 0 <= m < t.len() implies o.contains(t[m]) by {
        let src = if m == x { s.len() - 1 } else { m };
        assert(t[m] == s[src]);
        assert(o.contains(s[src]));
    }
    assert forall|n: int| 0 <= n < o.len() implies inside_some(t, #[trigger] o[n]) by {
        assert(inside_some(s, o[n]));
        let m0 = choose|m: int| 0 <= m < s.len() && contains_rect(#[trigger] s[m], o[n]);
        let m1 = if m0 == x { y } else { m0 };
        assert(contains_rect(s[m1], o[n]));
        let m2 = if m1 == s.len() - 1 { x } else { m1 };
        assert(t[m2] == s[m1]);
    }
}

/// Whether `r` is what becomes of free rectangle `f` when `used` is placed: `f` itself when
/// the two do not overlap, else one of the strips of `f` around `used`.
pub open spec fn piece_of(f: Rect, used: Rect, r: Rect) -> bool {
    if overlaps_rect(f, used) {
        strips_around(f, used).contains(r)
    } else {
        r == f
    }
}

/// Whether `r` is what becomes of one of the free rectangles `free` when `used` is placed.
pub open spec fn piece_of_some(free: Seq<Rect>, used: Rect, r: Rect) -> bool {
    exists|k: int| 0 <= k < free.len() && #[trigger] piece_of(free[k], used, r)
}

/// Whether the rectangles of `s` are exactly what becomes of the free rectangles `free`
/// when `used` is placed.
pub open spec fn split_list(free: Seq<Rect>, used: Rect, s: Seq<Rect>) -> bool {
    forall|r: Rect| #[trigger] s.contains(r) <==> piece_of_some(free, used, r)
}

/// Whether, part way through cutting the free rectangles `free` around `used`, the ones
/// still listed in `g` come from `free`, the strips cut so far in `sp` are pieces of `free`,
/// every free rectangle apart from `used` is still listed, and the strips of every
/// overlapping one no longer listed are in `sp`.
pub open spec fn split_progress(free: Seq<Rect>, used: Rect, g: Seq<Rect>, sp: Seq<Rect>) -> bool {
    &&& forall|m: int| 0 <= m < g.len() ==> free.contains(#[trigger] g[m])
    &&& forall|r: Rect| #[trigger] sp.contains(r) ==> piece_of_some(free, used, r)
    &&& forall|k: int| 0 <= k < free.len() && !overlaps_rect(free[k], used) ==> g.contains(#[trigger] free[k])
    &&& forall|k: int, r: Rect| 0 <= k < free.len() && overlaps_rect(free[k], used) && !g.contains(free[k])
        && #[trigger] strips_around(free[k], used).contains(r) ==> sp.contains(r)
}

/// Taking out the rectangle at `i` by moving the last one there keeps every other value.
pub proof fn lemma_swap_remove_contains(g: Seq<Rect>, i: int, v: Rect)
    requires
        0 <= i < g.len(),
    ensures
        g.update(i, g.last()).drop_last().contains(v) ==> g.contains(v),
        g[i] != v ==> (g.update(i, g.last()).drop_last().contains(v) <==> g.contains(v)),
{
    let h = g.update(i, g.last()).drop_last();
    if h.contains(v) {
        let m = choose|m: int| 0 <= m < h.len() && h[m] == v;
        let src = if m == i { g.len() - 1 } else { m };
        assert(g[src] == v);
    }
    if g[i] != v && g.contains(v) {
        let m = choose|m: int| 0 <= m < g.len() && g[m] == v;
        let dst = if m == g.len() - 1 { i } else { m };
        assert(h[dst] == v);
    }
}

/// Cutting the overlapping free rectangle at `i` into its strips keeps the cut in progress.
pub proof fn lemma_split_step(free: Seq<Rect>, used: Rect, g: Seq<Rect>, sp: Seq<Rect>, i: int)
    requires
        split_progress(free, used, g, sp),
        0 <= i < g.len(),
        overlaps_rect(g[i], used),
    ensures
        split_progress(free, used, g.update(i, g.last()).drop_last(), sp + strips_around(g[i], used)),
{
    let h = g.update(i, g.last()).drop_last();
    let f = g[i];
    let sp2 = sp + strips_around(f, used);
    assert(free.contains(g[i]));
    let kf = choose|k: int| 0 <= k < free.len() && free[k] == f;
    assert forall|m: int| 0 <= m < h.len() implies free.contains(#[trigger] h[m]) by {
        let src = if m == i { g.len() - 1 } else { m };
        assert(h[m] == g[src]);
    }
    assert forall|r: Rect| #[trigger] sp2.contains(r) implies piece_of_some(free, used, r) by {
        vstd::seq_lib::lemma_seq_concat_contains_all_elements(sp, strips_around(f, used), r);
        if !sp.contains(r) {
            assert(strips_around(f, used).contains(r));
            assert(piece_of(free[kf], used, r));
        }
    }
    assert forall|k: int| 0 <= k < free.len() && !overlaps_rect(free[k], used) implies h.contains(#[trigger] free[k]) by {
        lemma_swap_remove_contains(g, i, free[k]);
    }
    assert forall|k: int, r: Rect| 0 <= k < free.len() && overlaps_rect(free[k], used) && !h.contains(free[k])
        && #[trigger] strips_around(free[k], used).contains(r) implies sp2.contains(r) by {
        lemma_swap_remove_contains(g, i, free[k]);
        vstd::seq_lib::lemma_seq_concat_contains_all_elements(sp, strips_around(f, used), r);
        if free[k] != f {
            assert(sp.contains(r));
        }
    }
}

/// Once no listed free rectangle overlaps `used`, the listed ones and the strips cut are
/// exactly what becomes of the free rectangles.
pub proof fn lemma_split_done(free: Seq<Rect>, used: Rect, g: Seq<Rect>, sp: Seq<Rect>)
    requires
        split_progress(free, used, g, sp),
        forall|m: int| 0 <= m < g.len() ==> !overlaps_rect(#[trigger] g[m], used),
    ensures
        split_list(free, used, g + sp),
{
    assert forall|r: Rect| #[trigger] (g + sp).contains(r) <==> piece_of_some(free, used, r) by {
        vstd::seq_lib::lemma_seq_concat_contains_all_elements(g, sp, r);
        if g.contains(r) {
            let m = choose|m: int| 0 <= m < g.len() && g[m] == r;
            assert(free.contains(g[m]));
            let k = choose|k: int| 0 <= k < free.len() && free[k] == r;
            assert(piece_of(free[k], used, r));
        }
        if piece_of_some(free, used, r) {
            let k = choose|k: int| 0 <= k < free.len() && #[trigger] piece_of(free[k], used, r);
            if overlaps_rect(free[k], used) {
                if g.contains(free[k]) {
                    let m = choose|m: int| 0 <= m < g.len() && g[m] == free[k];
                    assert(!overlaps_rect(g[m], used));
                }
                assert(sp.contains(r));
            } else {
                assert(g.contains(free[k]));
            }
        }
    }
}

/// `g` with the rectangle at `k` taken out and the last one moved into its place.
pub open spec fn take_out(g: Seq<Rect>, k: int) -> Seq<Rect> {
    g.update(k, g.last()).drop_last()
}

/// The free list that cutting leaves when `used` is placed, from position `i` of `g` on,
/// with the strips `sp` cut so far: each free rectangle that overlaps `used` is taken out
/// and its strips go after the rest.
pub open spec fn cut_walk(g: Seq<Rect>, sp: Seq<Rect>, i: int, used: Rect) -> Seq<Rect>
    decreases g.len() - i,
{
    if i < 0 || i >= g.len() {
        g + sp
    } else if overlaps_rect(g[i], used) {
        cut_walk(take_out(g, i), sp + strips_around(g[i], used), i, used)
    } else {
        cut_walk(g, sp, i + 1, used)
    }
}

/// The free list that pruning leaves of `g`, comparing the rectangle at `i` with the one
/// at `j` next: the one that the other holds is taken out.
pub open spec fn prune_walk(g: Seq<Rect>, i: int, j: int) -> Seq<Rect>
    decreases g.len() - i, g.len() - j,
{
    if i < 0 || i >= g.len() {
        g
    } else if j < 0 || j >= g.len() {
        prune_walk(g, i + 1, i + 2)
    } else if contains_rect(g[i], g[j]) {
        prune_walk(take_out(g, j), i, j)
    } else if contains_rect(g[j], g[i]) {
        prune_walk(take_out(g, i), i, i + 1)
    } else {
        prune_walk(g, i, j + 1)
    }
}

/// The union of `a` and `b` when they meet along a full edge: the same rows and touching
/// columns first, else the same columns and touching rows.
pub open spec fn join_of(a: Rect, b: Rect) -> Option<Rect> {
    if a.y == b.y && a.h == b.h && a.x + a.w == b.x {
        Some(Rect { x: a.x, y: a.y, w: (a.w + b.w) as u32, h: a.h })
    } else if a.y == b.y && a.h == b.h && b.x + b.w == a.x {
        Some(Rect { x: b.x, y: a.y, w: (a.w + b.w) as u32, h: a.h })
    } else if a.x == b.x && a.w == b.w && a.y + a.h == b.y {
        Some(Rect { x: a.x, y: a.y, w: a.w, h: (a.h + b.h) as u32 })
    } else if a.x == b.x && a.w == b.w && b.y + b.h == a.y {
        Some(Rect { x: a.x, y: b.y, w: a.w, h: (a.h + b.h) as u32 })
    } else {
        None
    }
}

/// The free list that one joining pass leaves of `g`, trying the rectangle at `i` with the
/// one at `j` next: when they meet along a full edge their union goes at `i` and the one
/// at `j` is taken out.
pub open spec fn join_walk(g: Seq<Rect>, i: int, j: int) -> Seq<Rect>
    decreases g.len() - i, g.len() - j,
{
    if i < 0 || i >= g.len() {
        g
    } else if j < 0 || j >= g.len() {
        join_walk(g, i + 1, i + 2)
    } else {
        match join_of(g[i], g[j]) {
            Some(m) => join_walk(take_out(g.update(i, m), j), i, j),
            None => join_walk(g, i, j + 1),
        }
    }
}

/// Whether `p` is `s` with every rectangle that another one holds taken out: each rectangle
/// of `p` is one of `s`, each one of `s` lies inside one of `p`, and none of `p` holds another.
pub open spec fn pruned(s: Seq<Rect>, p: Seq<Rect>) -> bool {
    &&& all_from(p, s)
    &&& all_inside(s, p)
    &&& none_contained(p)
}

/// Whether `f` is what one joining pass leaves of `p`: each rectangle of `f` is the union of a
/// group of those of `p`, fewer of them when two of `p` meet along a full edge, and `p` itself
/// when none do.
pub open spec fn joined(p: Seq<Rect>, f: Seq<Rect>) -> bool {
    &&& exists|owner: Seq<int>| grouped(p, f, owner)
    &&& f.len() <= p.len()
    &&& has_meeting_pair(p) ==> f.len() < p.len()
    &&& !has_meeting_pair(p) ==> f == p
}

/// Whether `out` is `inp` with groups of rectangles joined: input rectangle `n` went into
/// output rectangle `owner[n]`, every output rectangle got at least one input rectangle, and
/// each holds exactly the cells of the input rectangles that went into it.
pub open spec fn grouped(inp: Seq<Rect>, out: Seq<Rect>, owner: Seq<int>) -> bool {
    &&& owner.len() == inp.len()
    &&& forall|n: int| 0 <= n < inp.len() ==> 0 <= #[trigger] owner[n] < out.len()
    &&& forall|o: int| 0 <= o < out.len() ==> #[trigger] goes_to(owner, o)
    &&& forall|o: int, px: int, py: int| 0 <= o < out.len() ==> (#[trigger] holds(out[o], px, py)
        <==> exists|n: int| 0 <= n < inp.len() && owner[n] == o && #[trigger] holds(inp[n], px, py))
}

/// Whether some input rectangle went into output rectangle `o`.
pub open spec fn goes_to(owner: Seq<int>, o: int) -> bool {
    exists|n: int| 0 <= n < owner.len() && #[trigger] owner[n] == o
}

/// Where each input rectangle goes once rectangle `j` is joined into rectangle `i` and the
/// last rectangle, at `last`, is moved into the place of `j`.
pub open spec fn regroup(owner: Seq<int>, i: int, j: int, last: int) -> Seq<int> {
    Seq::new(owner.len(), |n: int| if owner[n] == j { i } else if owner[n] == last { j } else { owner[n] })
}

/// Every rectangle is its own group.
pub proof fn lemma_grouped_self(s: Seq<Rect>)
    ensures
        grouped(s, s, Seq::new(s.len(), |n: int| n)),
{
    let owner = Seq::new(s.len(), |n: int| n);
    assert forall|o: int| 0 <= o < s.len() implies #[trigger] goes_to(owner, o) by {
        assert(owner[o] == o);
    }
    assert forall|o: int, px: int, py: int| 0 <= o < s.len() implies (#[trigger] holds(s[o], px, py)
        <==> exists|n: int| 0 <= n < s.len() && owner[n] == o && #[trigger] holds(s[n], px, py)) by {
        if holds(s[o], px, py) {
            assert(owner[o] == o);
        }
    }
}

/// Joining rectangle `j` into rectangle `i`, as their union `m`, and moving the last one into
/// the place of `j`, keeps the output the union of groups of the input.
pub proof fn lemma_grouped_join(inp: Seq<Rect>, g: Seq<Rect>, owner: Seq<int>, i: int, j: int, m: Rect)
    requires
        grouped(inp, g, owner),
        0 <= i < j < g.len(),
        forall|px: int, py: int| #[trigger] holds(m, px, py) <==> holds(g[i], px, py) || holds(g[j], px, py),
    ensures
        grouped(inp, g.update(i, m).update(j, g.last()).drop_last(), regroup(owner, i, j, g.len() - 1)),
{
    let last = g.len() - 1;
    let h = g.update(i, m).update(j, g.last()).drop_last();
    let o2 = regroup(owner, i, j, last);
    assert forall|n: int| 0 <= n < inp.len() implies 0 <= #[trigger] o2[n] < h.len() by {
        assert(0 <= owner[n] < g.len());
    }
    assert forall|o: int| 0 <= o < h.len() implies #[trigger] goes_to(o2, o) by {
        let src = if o == j { last } else { o };
        assert(goes_to(owner, src));
        let n = choose|n: int| 0 <= n < owner.len() && #[trigger] owner[n] == src;
        assert(o2[n] == o);
    }
    assert forall|o: int, px: int, py: int| 0 <= o < h.len() implies (#[trigger] holds(h[o], px, py)
        <==> exists|n: int| 0 <= n < inp.len() && o2[n] == o && #[trigger] holds(inp[n], px, py)) by {
        if o == i {
            assert(h[o] == m);
            if holds(m, px, py) {
                let src = if holds(g[i], px, py) { i } else { j };
                assert(holds(g[src], px, py));
                let n = choose|n: int| 0 <= n < inp.len() && owner[n] == src && #[trigger] holds(inp[n], px, py);
                assert(o2[n] == o);
            }
            if exists|n: int| 0 <= n < inp.len() && o2[n] == o && #[trigger] holds(inp[n], px, py) {
                let n = choose|n: int| 0 <= n < inp.len() && o2[n] == o && #[trigger] holds(inp[n], px, py);
                assert(owner[n] == i || owner[n] == j);
                assert(holds(g[owner[n]], px, py));
            }
        } else {
            let src = if o == j { last } else { o };
            assert(h[o] == g[src]);
            if holds(g[src], px, py) {
                let n = choose|n: int| 0 <= n < inp.len() && owner[n] == src && #[trigger] holds(inp[n], px, py);
                assert(o2[n] == o);
            }
            if exists|n: int| 0 <= n < inp.len() && o2[n] == o && #[trigger] holds(inp[n], px, py) {
                let n = choose|n: int| 0 <= n < inp.len() && o2[n] == o && #[trigger] holds(inp[n], px, py);
                assert(owner[n] == src);
                assert(holds(g[src], px, py));
            }
        }
    }
}

impl MaxRectsAllocator {
    /// Whether every free rectangle and every placed one lies in the atlas, and no placed
    /// rectangle shares a cell with a free one or with another placed one.
    pub closed spec fn wf(&self) -> bool {
        let f = self.free_rects@;
        let a = self.allocations@;
        &&& forall|k: int| 0 <= k < f.len() ==> in_bounds(#[trigger] f[k], self.width as int, self.height as int)
        &&& forall|k: int, i: int| 0 <= k < f.len() && 0 <= i < a.len() ==> !cells_overlap(#[trigger] f[k], #[trigger] a[i])
        &&& forall|i: int| 0 <= i < a.len() ==> in_bounds(#[trigger] a[i], self.width as int, self.height as int)
        &&& pairwise_disjoint(a)
    }

    /// The width of the atlas.
    pub closed spec fn spec_width(&self) -> u32 {
        self.width
    }

    /// The height of the atlas.
    pub closed spec fn spec_height(&self) -> u32 {
        self.height
    }

    /// The free rectangles.
    pub closed spec fn spec_free(&self) -> Seq<Rect> {
        self.free_rects@
    }

    /// The rectangles placed so far, in order.
    pub closed spec fn spec_allocations(&self) -> Seq<Rect> {
        self.allocations@
    }

    /// An empty `width` by `height` atlas: one free rectangle, the whole atlas.
    pub fn new(width: u32, height: u32) -> (s: Self)
        ensures
            s.spec_width() == width,
            s.spec_height() == height,
            s.spec_free() == seq![Rect { x: 0, y: 0, w: width, h: height }],
            s.spec_allocations().len() == 0,
            s.wf(),
    {
        let mut free_rects: Vec<Rect> = Vec::new();
        free_rects.push(Rect { x: 0, y: 0, w: width, h: height });
        Self { width, height, free_rects, allocations: Ghost(Seq::empty()) }
    }

    /// The first free rectangle that leaves the shortest side, then the shortest other
    /// side, over when a `w` by `h` rectangle is placed in it.
    fn find_best_fit(&self, w: u32, h: u32) -> (r: Option<usize>)
        ensures
            r matches Some(k) ==> best_fit_index(self.spec_free(), w, h) == Some(k as int) && k < self.spec_free().len(),
            r is None ==> best_fit_index(self.spec_free(), w, h) is None,
    {
        let ghost free0 = self.free_rects@;
        let mut best_short: u32 = u32::MAX;
        let mut best_long: u32 = u32::MAX;
        let mut best_idx: Option<usize> = None;
        let mut i: usize = 0;
        while i < self.free_rects.len()
            invariant
                i <= free0.len(),
                self.free_rects@ == free0,
                best_fit(free0, w, h, i as int).0 == (best_short as int, best_long as int),
                best_fit(free0, w, h, i as int).1 == match best_idx {
                    Some(k) => Some(k as int),
                    None => None::<int>,
                },
            decreases free0.len() - i,
        {
            let free = self.free_rects[i];
            if w <= free.w && h <= free.h {
                let dw = free.w - w;
                let dh = free.h - h;
                let (short, long) = if dw < dh { (dw, dh) } else { (dh, dw) };
                if short < best_short || (short == best_short && long < best_long) {
                    best_short = short;
                    best_long = long;
                    best_idx = Some(i);
                }
            }
            i = i + 1;
        }
        proof {
            lemma_best_fit(free0, w, h, free0.len() as int);
        }
        best_idx
    }

    /// Whether `a` and `b` overlap: share any interior area.
    fn overlaps(a: Rect, b: Rect) -> (r: bool)
        requires
            sums_fit(a),
            sums_fit(b),
        ensures
            r == overlaps_rect(a, b),
            r == overlaps_rect(b, a),
            a.w > 0 && a.h > 0 && b.w > 0 && b.h > 0 ==> (r <==> exists|px: int, py: int| holds(a, px, py) && holds(b, px, py)),
    {
        proof {
            lemma_cells_overlap(a, b);
        }
        b.x < a.x + a.w && b.x + b.w > a.x && b.y < a.y + a.h && b.y + b.h > a.y
    }

    /// Whether `a` fully contains `b`.
    fn contains(a: Rect, b: Rect) -> (r: bool)
        requires
            sums_fit(a),
            sums_fit(b),
        ensures
            r == contains_rect(a, b),
            b.w > 0 && b.h > 0 ==> (r <==> forall|px: int, py: int| holds(b, px, py) ==> holds(a, px, py)),
            r && b.w > 0 && b.h > 0 ==> overlaps_rect(a, b),
    {
        proof {
            if b.w > 0 && b.h > 0 && !contains_rect(a, b) {
                let px: int = if a.x > b.x { b.x as int } else { b.x + b.w - 1 };
                let py: int = if a.y > b.y { b.y as int } else { b.y + b.h - 1 };
                let qx: int = if a.x > b.x || a.x + a.w < b.x + b.w { px } else { b.x as int };
                let qy: int = if a.x > b.x || a.x + a.w < b.x + b.w { b.y as int } else { py };
                assert(holds(b, qx, qy) && !holds(a, qx, qy));
            }
        }
        a.x <= b.x && a.y <= b.y && a.x + a.w >= b.x + b.w && a.y + a.h >= b.y + b.h
    }

    /// Appends the strips of `free` left, right, above and below `used`.
    fn push_splits(free: Rect, used: Rect, out: &mut Vec<Rect>)
        requires
            sums_fit(free),
            sums_fit(used),
            overlaps_rect(free, used),
        ensures
            final(out)@ == old(out)@ + strips_around(free, used),
    {
        let ghost start = out@;
        if used.x > free.x {
            out.push(Rect { x: free.x, y: free.y, w: used.x - free.x, h: free.h });
        }
        let ghost after_left = out@;
        if used.x + used.w < free.x + free.w {
            out.push(Rect { x: used.x + used.w, y: free.y, w: (free.x + free.w) - (used.x + used.w), h: free.h });
        }
        let ghost after_right = out@;
        if used.y > free.y {
            out.push(Rect { x: free.x, y: free.y, w: free.w, h: used.y - free.y });
        }
        let ghost after_top = out@;
        if used.y + used.h < free.y + free.h {
            out.push(Rect { x: free.x, y: used.y + used.h, w: free.w, h: (free.y + free.h) - (used.y + used.h) });
        }
        assert(out@ =~= start + strips_around(free, used));
    }

    /// Removes every free rectangle that another one fully contains.
    #[verifier::rlimit(50)]
    fn prune_free_list(&mut self)
        requires
            old(self).wf(),
        ensures
            final(self).wf(),
            same_cover(final(self).spec_free(), old(self).spec_free()),
            none_contained(final(self).spec_free()),
            all_from(final(self).spec_free(), old(self).spec_free()),
            all_inside(old(self).spec_free(), final(self).spec_free()),
            final(self).spec_free() == prune_walk(old(self).spec_free(), 0, 1),
            final(self).spec_width() == old(self).spec_width(),
            final(self).spec_height() == old(self).spec_height(),
            final(self).spec_allocations() == old(self).spec_allocations(),
    {
        let ghost f0 = self.free_rects@;
        proof {
            lemma_all_self(f0);
        }
        let mut i: usize = 0;
        while i < self.free_rects.len()
            invariant
                self.wf(),
                same_cover(self.free_rects@, old(self).spec_free()),
                self.width == old(self).spec_width(),
                self.height == old(self).spec_height(),
                self.allocations@ == old(self).spec_allocations(),
                f0 == old(self).spec_free(),
                all_from(self.free_rects@, f0),
                all_inside(f0, self.free_rects@),
                forall|k: int, m: int| 0 <= k < i && k < m < self.free_rects@.len() ==>
                    !contains_rect(#[trigger] self.free_rects@[k], #[trigger] self.free_rects@[m])
                    && !contains_rect(self.free_rects@[m], self.free_rects@[k]),
                prune_walk(self.free_rects@, i as int, i + 1) == prune_walk(f0, 0, 1),
            decreases self.free_rects@.len() - i,
        {
            let ghost len0 = self.free_rects@.len();
            let mut j = i + 1;
            let mut i_removed = false;
            while j < self.free_rects.len() && !i_removed
                invariant
                    self.wf(),
                    same_cover(self.free_rects@, old(self).spec_free()),
                    self.width == old(self).spec_width(),
                    self.height == old(self).spec_height(),
                    self.allocations@ == old(self).spec_allocations(),
                    self.free_rects@.len() <= len0,
                    i_removed ==> self.free_rects@.len() < len0,
                    !i_removed ==> i < j && j <= self.free_rects@.len(),
                    i <= self.free_rects@.len(),
                    i < len0,
                    f0 == old(self).spec_free(),
                    all_from(self.free_rects@, f0),
                    all_inside(f0, self.free_rects@),
                    forall|k: int, m: int| 0 <= k < i && k < m < self.free_rects@.len() ==>
                        !contains_rect(#[trigger] self.free_rects@[k], #[trigger] self.free_rects@[m])
                        && !contains_rect(self.free_rects@[m], self.free_rects@[k]),
                    !i_removed ==> forall|m: int| i < m < j ==>
                        !contains_rect(self.free_rects@[i as int], #[trigger] self.free_rects@[m])
                        && !contains_rect(self.free_rects@[m], self.free_rects@[i as int]),
                    !i_removed ==> prune_walk(self.free_rects@, i as int, j as int) == prune_walk(f0, 0, 1),
                    i_removed ==> prune_walk(self.free_rects@, i as int, i + 1) == prune_walk(f0, 0, 1),
                decreases self.free_rects@.len() - j,
            {
                let a = self.free_rects[i];
                let b = self.free_rects[j];
                let ghost g = self.free_rects@;
                proof {
                    assert(prune_walk(g, i as int, j as int) == if contains_rect(g[i as int], g[j as int]) {
                        prune_walk(take_out(g, j as int), i as int, j as int)
                    } else if contains_rect(g[j as int], g[i as int]) {
                        prune_walk(take_out(g, i as int), i as int, i + 1)
                    } else {
                        prune_walk(g, i as int, j + 1)
                    });
                }
                if Self::contains(a, b) {
                    proof {
                        lemma_remove_contained(self.free_rects@, j as int, i as int);
                        lemma_swap_remove_kept(self.free_rects@, j as int, i as int, f0);
                    }
                    self.free_rects.swap_remove(j);
                    proof {
                        let t = self.free_rects@;
                        assert forall|k: int, m: int| 0 <= k < i && k < m < t.len() implies
                            !contains_rect(#[trigger] t[k], #[trigger] t[m]) && !contains_rect(t[m], t[k]) by {
                            let src = if m == j { g.len() - 1 } else { m };
                            assert(t[m] == g[src] && t[k] == g[k]);
                        }
                        assert forall|m: int| i < m < j implies
                            !contains_rect(t[i as int], #[trigger] t[m]) && !contains_rect(t[m], t[i as int]) by {
                            assert(t[m] == g[m] && t[i as int] == g[i as int]);
                        }
                    }
                } else if Self::contains(b, a) {
                    proof {
                        lemma_remove_contained(self.free_rects@, i as int, j as int);
                        lemma_swap_remove_kept(self.free_rects@, i as int, j as int, f0);
                    }
                    self.free_rects.swap_remove(i);
                    proof {
                        let t = self.free_rects@;
                        assert forall|k: int, m: int| 0 <= k < i && k < m < t.len() implies
                            !contains_rect(#[trigger] t[k], #[trigger] t[m]) && !contains_rect(t[m], t[k]) by {
                            let src = if m == i { g.len() - 1 } else { m };
                            assert(t[m] == g[src] && t[k] == g[k]);
                        }
                    }
                    i_removed = true;
                } else {
                    j = j + 1;
                }
            }
            if !i_removed {
                assert(prune_walk(self.free_rects@, i as int, j as int) == prune_walk(self.free_rects@, i + 1, i + 2));
                i = i + 1;
            }
        }
        proof {
            let t = self.free_rects@;
            assert forall|k: int, m: int| 0 <= k < t.len() && 0 <= m < t.len() && k != m
                implies !contains_rect(#[trigger] t[k], #[trigger] t[m]) by {
                if k > m {
                    assert(!contains_rect(t[k], t[m]) && !contains_rect(t[m], t[k]));
                }
            }
        }
    }

    /// One pass that merges free rectangles meeting along a full edge: with the same
    /// rows and touching columns, or the same columns and touching rows.
    fn merge_free_rects(&mut self)
        requires
            old(self).wf(),
        ensures
            final(self).wf(),
            same_cover(final(self).spec_free(), old(self).spec_free()),
            final(self).spec_free().len() <= old(self).spec_free().len(),
            has_meeting_pair(old(self).spec_free()) ==> final(self).spec_free().len() < old(self).spec_free().len(),
            !has_meeting_pair(old(self).spec_free()) ==> final(self).spec_free() == old(self).spec_free(),
            exists|owner: Seq<int>| grouped(old(self).spec_free(), final(self).spec_free(), owner),
            final(self).spec_free() == join_walk(old(self).spec_free(), 0, 1),
            final(self).spec_width() == old(self).spec_width(),
            final(self).spec_height() == old(self).spec_height(),
            final(self).spec_allocations() == old(self).spec_allocations(),
    {
        let ghost f0 = self.free_rects@;
        let ghost mut merged_any = false;
        let ghost mut owner = Seq::new(f0.len(), |n: int| n);
        proof {
            lemma_grouped_self(f0);
        }
        let mut i: usize = 0;
        while i < self.free_rects.len()
            invariant
                self.wf(),
                same_cover(self.free_rects@, old(self).spec_free()),
                self.width == old(self).spec_width(),
                self.height == old(self).spec_height(),
                self.allocations@ == old(self).spec_allocations(),
                f0 == old(self).spec_free(),
                self.free_rects@.len() <= f0.len(),
                merged_any ==> self.free_rects@.len() < f0.len() && has_meeting_pair(f0),
                !merged_any ==> self.free_rects@ == f0,
                !merged_any ==> forall|k: int, m: int| 0 <= k < i && k < m < f0.len()
                    ==> !meets_along_edge(#[trigger] f0[k], #[trigger] f0[m]),
                grouped(f0, self.free_rects@, owner),
                join_walk(self.free_rects@, i as int, i + 1) == join_walk(f0, 0, 1),
            decreases self.free_rects@.len() - i,
        {
            let ghost len0 = self.free_rects@.len();
            let mut j = i + 1;
            while j < self.free_rects.len()
                invariant
                    self.free_rects@.len() <= len0,
                    same_cover(self.free_rects@, old(self).spec_free()),
                    self.wf(),
                    self.width == old(self).spec_width(),
                    self.height == old(self).spec_height(),
                    self.allocations@ == old(self).spec_allocations(),
                    i < j,
                    i < self.free_rects@.len(),
                    f0 == old(self).spec_free(),
                    len0 <= f0.len(),
                    merged_any ==> self.free_rects@.len() < f0.len() && has_meeting_pair(f0),
                    !merged_any ==> self.free_rects@ == f0,
                    !merged_any ==> forall|k: int, m: int| 0 <= k < i && k < m < f0.len()
                        ==> !meets_along_edge(#[trigger] f0[k], #[trigger] f0[m]),
                    !merged_any ==> forall|m: int| i < m < j ==> !meets_along_edge(f0[i as int], #[trigger] f0[m]),
                    grouped(f0, self.free_rects@, owner),
                    join_walk(self.free_rects@, i as int, j as int) == join_walk(f0, 0, 1),
                decreases self.free_rects@.len() - j,
            {
                let a = self.free_rects[i];
                let b = self.free_rects[j];
                let mut merged: Option<Rect> = None;
                if a.y == b.y && a.h == b.h {
                    if a.x + a.w == b.x {
                        merged = Some(Rect { x: a.x, y: a.y, w: a.w + b.w, h: a.h });
                    } else if b.x + b.w == a.x {
                        merged = Some(Rect { x: b.x, y: a.y, w: a.w + b.w, h: a.h });
                    }
                }
                if merged.is_none() && a.x == b.x && a.w == b.w {
                    if a.y + a.h == b.y {
                        merged = Some(Rect { x: a.x, y: a.y, w: a.w, h: a.h + b.h });
                    } else if b.y + b.h == a.y {
                        merged = Some(Rect { x: a.x, y: b.y, w: a.w, h: a.h + b.h });
                    }
                }
                assert(merged == join_of(a, b));
                match merged {
                    Some(m) => {
                        proof {
                            let al = self.allocations@;
                            assert forall|k: int| 0 <= k < al.len() implies !cells_overlap(m, #[trigger] al[k]) by {
                                lemma_merge_apart(a, b, m, al[k]);
                            }
                            assert forall|px: int, py: int| #[trigger] holds(m, px, py)
                                <==> holds(a, px, py) || holds(b, px, py) by {
                                lemma_merge_cells(a, b, m, px, py);
                            }
                            lemma_replace_by_union(self.free_rects@, i as int, j as int, m);
                            lemma_merge_cells(a, b, m, 0, 0);
                        }
                        proof {
                            assert(meets_along_edge(a, b));
                            if !merged_any {
                                assert(f0[i as int] == a && f0[j as int] == b);
                                assert(has_meeting_pair(f0));
                            }
                        }
                        let ghost g = self.free_rects@;
                        proof {
                            lemma_grouped_join(f0, g, owner, i as int, j as int, m);
                        }
                        self.free_rects.set(i, m);
                        proof {
                            lemma_remove_contained(self.free_rects@, j as int, i as int);
                        }
                        self.free_rects.swap_remove(j);
                        proof {
                            assert(self.free_rects@ == g.update(i as int, m).update(j as int, g.last()).drop_last());
                            owner = regroup(owner, i as int, j as int, g.len() - 1);
                            merged_any = true;
                        }
                    },
                    None => {
                        j = j + 1;
                    },
                }
            }
            assert(join_walk(self.free_rects@, i as int, j as int) == join_walk(self.free_rects@, i + 1, i + 2));
            i = i + 1;
        }
        proof {
            if !merged_any && has_meeting_pair(f0) {
                let (k, m) = choose|k: int, m: int| 0 <= k < f0.len() && 0 <= m < f0.len() && k != m
                    && meets_along_edge(#[trigger] f0[k], #[trigger] f0[m]);
                if k < m {
                    assert(!meets_along_edge(f0[k], f0[m]));
                } else {
                    assert(!meets_along_edge(f0[m], f0[k]));
                }
            }
        }
    }
}

impl AtlasAllocator for MaxRectsAllocator {
    open spec fn well_formed(&self) -> bool {
        self.wf()
    }

    open spec fn spec_dimensions(&self) -> (u32, u32) {
        (self.spec_width(), self.spec_height())
    }

    open spec fn spec_placed(&self) -> Seq<Rect> {
        self.spec_allocations()
    }

    open spec fn spec_place(&self, w: u32, h: u32) -> Option<(u32, u32)> {
        match best_fit_index(self.spec_free(), w, h) {
            Some(k) => Some((self.spec_free()[k].x, self.spec_free()[k].y)),
            None => None,
        }
    }

    /// Places the rectangle at the corner of the free rectangle that leaves the shortest
    /// side (then the shortest other side) over, the first such one. Placed rectangles lie
    /// in the atlas and no two of them share a cell.
    fn allocate(&mut self, w: u32, h: u32) -> (r: Option<(u32, u32)>)
        ensures
            final(self).spec_width() == old(self).spec_width(),
            final(self).spec_height() == old(self).spec_height(),
            match best_fit_index(old(self).spec_free(), w, h) {
                None => r is None && final(self).spec_free() == old(self).spec_free()
                    && final(self).spec_allocations() == old(self).spec_allocations(),
                Some(k) => {
                    let placed = Rect { x: old(self).spec_free()[k].x, y: old(self).spec_free()[k].y, w, h };
                    &&& r == Some((placed.x, placed.y))
                    &&& final(self).spec_allocations() == old(self).spec_allocations().push(placed)
                    &&& forall|px: int, py: int| #[trigger] covered(final(self).spec_free(), px, py)
                        <==> covered(old(self).spec_free(), px, py) && !holds(placed, px, py)
                    &&& exists|cut: Seq<Rect>, kept: Seq<Rect>| split_list(old(self).spec_free(), placed, cut)
                        && #[trigger] pruned(cut, kept) && #[trigger] joined(kept, final(self).spec_free())
                    &&& final(self).spec_free() == join_walk(
                        prune_walk(cut_walk(old(self).spec_free(), Seq::empty(), 0, placed), 0, 1), 0, 1)
                },
            },
            pairwise_disjoint(final(self).spec_allocations()),
            forall|i: int| 0 <= i < final(self).spec_allocations().len() ==> in_bounds(
                #[trigger] final(self).spec_allocations()[i], final(self).spec_width() as int, final(self).spec_height() as int),
    {
        let ghost free0 = self.free_rects@;
        let best = match self.find_best_fit(w, h) {
            Some(k) => k,
            None => {
                return None;
            },
        };
        let placed = Rect { x: self.free_rects[best].x, y: self.free_rects[best].y, w, h };
        proof {
            assert(best_fit_index(free0, w, h) == Some(best as int));
            lemma_best_fit(free0, w, h, free0.len() as int);
            let k = best_fit_index(free0, w, h)->0;
            assert(contains_rect(free0[k], placed));
            let al = self.allocations@;
            assert forall|m: int| 0 <= m < al.len() implies !cells_overlap(placed, #[trigger] al[m]) by {
                lemma_inside_apart(free0[k], placed, al[m]);
            }
        }
        let mut splits: Vec<Rect> = Vec::new();
        proof {
            assert forall|r: Rect| #[trigger] splits@.contains(r) implies piece_of_some(free0, placed, r) by {
                assert(splits@ == Seq::<Rect>::empty());
            }
            assert forall|k: int| 0 <= k < free0.len() && !overlaps_rect(free0[k], placed)
                implies free0.contains(#[trigger] free0[k]) by {
                assert(free0[k] == free0[k]);
            }
        }
        let mut i: usize = 0;
        while i < self.free_rects.len()
            invariant
                self.wf(),
                self.width == old(self).spec_width(),
                self.height == old(self).spec_height(),
                self.allocations@ == old(self).spec_allocations(),
                in_bounds(placed, self.width as int, self.height as int),
                forall|m: int| 0 <= m < self.allocations@.len() ==> !cells_overlap(placed, #[trigger] self.allocations@[m]),
                i <= self.free_rects@.len(),
                forall|k: int| 0 <= k < i ==> !overlaps_rect(#[trigger] self.free_rects@[k], placed),
                forall|k: int| 0 <= k < splits@.len() ==> in_bounds(#[trigger] splits@[k], self.width as int, self.height as int)
                    && !cells_overlap(splits@[k], placed),
                forall|k: int, m: int| 0 <= k < splits@.len() && 0 <= m < self.allocations@.len()
                    ==> !cells_overlap(#[trigger] splits@[k], #[trigger] self.allocations@[m]),
                forall|px: int, py: int|
                    #![trigger covered(free0, px, py)]
                    #![trigger covered(self.free_rects@, px, py)]
                    #![trigger covered(splits@, px, py)]
                    (covered(free0, px, py) && !holds(placed, px, py))
                        <==> ((covered(self.free_rects@, px, py) || covered(splits@, px, py)) && !holds(placed, px, py)),
                split_progress(free0, placed, self.free_rects@, splits@),
                cut_walk(self.free_rects@, splits@, i as int, placed) == cut_walk(free0, Seq::empty(), 0, placed),
            decreases self.free_rects@.len() - i,
        {
            if Self::overlaps(self.free_rects[i], placed) {
                let ghost f_before = self.free_rects@;
                proof {
                    lemma_split_step(free0, placed, f_before, splits@, i as int);
                }
                let free = self.free_rects.swap_remove(i);
                let ghost before = splits@;
                proof {
                    lemma_splits(free, placed);
                }
                Self::push_splits(free, placed, &mut splits);
                proof {
                    assert forall|px: int, py: int|
                        #![trigger covered(free0, px, py)]
                        #![trigger covered(self.free_rects@, px, py)]
                        #![trigger covered(splits@, px, py)]
                        (covered(free0, px, py) && !holds(placed, px, py))
                            <==> ((covered(self.free_rects@, px, py) || covered(splits@, px, py)) && !holds(placed, px, py)) by {
                        lemma_swap_remove_cover(f_before, i as int, px, py);
                        lemma_concat_cover(before, strips_around(free, placed), px, py);
                        lemma_strips_cover(free, placed, px, py);
                        assert((covered(free0, px, py) && !holds(placed, px, py)) <==> ((covered(f_before, px, py)
                            || covered(before, px, py)) && !holds(placed, px, py)));
                    }
                }
                proof {
                    let s = strips_around(free, placed);
                    let al = self.allocations@;
                    assert forall|k: int, m: int| 0 <= k < splits@.len() && 0 <= m < al.len()
                        implies !cells_overlap(#[trigger] splits@[k], #[trigger] al[m]) by {
                        if k >= before.len() {
                            assert(splits@[k] == s[k - before.len()]);
                            lemma_inside_apart(free, s[k - before.len()], al[m]);
                        }
                    }
                    assert forall|k: int| 0 <= k < splits@.len() implies in_bounds(#[trigger] splits@[k],
                        self.width as int, self.height as int) && !cells_overlap(splits@[k], placed) by {
                        if k >= before.len() {
                            assert(splits@[k] == s[k - before.len()]);
                        }
                    }
                }
            } else {
                i = i + 1;
            }
        }
        let ghost kept = self.free_rects@;
        let ghost added = splits@;
        proof {
            lemma_split_done(free0, placed, kept, added);
            assert(cut_walk(kept, added, i as int, placed) == kept + added);
        }
        self.free_rects.append(&mut splits);
        proof {
            assert(self.free_rects@ == kept + added);
            assert forall|px: int, py: int| #[trigger] covered(self.free_rects@, px, py)
                <==> covered(free0, px, py) && !holds(placed, px, py) by {
                lemma_concat_cover(kept, added, px, py);
                if covered(kept, px, py) {
                    let k = choose|k: int| 0 <= k < kept.len() && holds(#[trigger] kept[k], px, py);
                    assert(!overlaps_rect(kept[k], placed));
                    lemma_apart_cells(kept[k], placed, px, py);
                }
                if covered(added, px, py) {
                    let k = choose|k: int| 0 <= k < added.len() && holds(#[trigger] added[k], px, py);
                    lemma_apart_cells(added[k], placed, px, py);
                }
            }
        }
        let ghost cut = self.free_rects@;
        self.allocations = Ghost(self.allocations@.push(placed));
        proof {
            let al = self.allocations@;
            let f = self.free_rects@;
            assert forall|k: int, m: int| 0 <= k < f.len() && 0 <= m < al.len()
                implies !cells_overlap(#[trigger] f[k], #[trigger] al[m]) by {
                if m == al.len() - 1 {
                    assert(al[m] == placed);
                } else {
                    assert(al[m] == old(self).spec_allocations()[m]);
                }
            }
            assert forall|m: int, n: int| 0 <= m < al.len() && 0 <= n < al.len() && m != n
                implies !cells_overlap(#[trigger] al[m], #[trigger] al[n]) by {
                if m == al.len() - 1 {
                    assert(!cells_overlap(placed, al[n]));
                } else if n == al.len() - 1 {
                    assert(!cells_overlap(placed, al[m]));
                } else {
                    assert(al[m] == old(self).spec_allocations()[m]);
                    assert(al[n] == old(self).spec_allocations()[n]);
                }
            }
        }
        self.prune_free_list();
        let ghost pr = self.free_rects@;
        self.merge_free_rects();
        proof {
            assert(pruned(cut, pr));
            assert(joined(pr, self.free_rects@));
            assert forall|px: int, py: int| #[trigger] covered(self.free_rects@, px, py)
                <==> covered(free0, px, py) && !holds(placed, px, py) by {
                assert(covered(cut, px, py) <==> covered(free0, px, py) && !holds(placed, px, py));
            }
        }
        Some((placed.x, placed.y))
    }

    fn place(&self, w: u32, h: u32) -> (r: Option<(u32, u32)>) {
        match self.find_best_fit(w, h) {
            Some(k) => {
                assert(best_fit_index(self.spec_free(), w, h) == Some(k as int));
                Some((self.free_rects[k].x, self.free_rects[k].y))
            },
            None => None,
        }
    }

    fn dimensions(&self) -> (r: (u32, u32)) {
        (self.width, self.height)
    }
}

} // verus!
