use ttfkit::atlas::allocator::{AtlasAllocator, MaxRectsAllocator, ShelfAllocator};
use ttfkit::atlas::pixels::PixelBuffer;
use ttfkit::atlas::{Atlas, AtlasEntry};

fn apart(a: (u32, u32, u32, u32), b: (u32, u32, u32, u32)) -> bool {
    let (ax, ay, aw, ah) = a;
    let (bx, by, bw, bh) = b;
    aw == 0 || ah == 0 || bw == 0 || bh == 0 || ax + aw <= bx || bx + bw <= ax || ay + ah <= by || by + bh <= ay
}

fn all_apart(rects: &[(u32, u32, u32, u32)]) -> bool {
    for i in 0..rects.len() {
        for j in 0..rects.len() {
            if i != j && !apart(rects[i], rects[j]) {
                return false;
            }
        }
    }
    true
}

#[test]
fn shelf_fills_rows_from_the_top() {
    let mut a = ShelfAllocator::new(100, 100);
    assert_eq!(a.dimensions(), (100, 100));
    assert_eq!(a.allocate(30, 10), Some((0, 0)));
    assert_eq!(a.allocate(30, 20), Some((0, 10)));
    assert_eq!(a.allocate(30, 5), Some((30, 0)));
    assert_eq!(a.allocate(50, 10), Some((30, 10)));
}

#[test]
fn shelf_refuses_what_does_not_fit_below() {
    let mut a = ShelfAllocator::new(100, 30);
    assert_eq!(a.allocate(60, 20), Some((0, 0)));
    assert_eq!(a.allocate(60, 20), None);
    assert_eq!(a.allocate(40, 10), Some((60, 0)));
    assert_eq!(a.allocate(10, 10), Some((0, 20)));
    assert_eq!(a.allocate(10, 1), Some((10, 20)));
}

#[test]
fn shelf_allocations_never_overlap() {
    let mut a = ShelfAllocator::new(64, 64);
    let mut placed = Vec::new();
    for k in 1..40u32 {
        let (w, h) = (k % 7 + 3, k % 5 + 2);
        if let Some((x, y)) = a.allocate(w, h) {
            assert!(x + w <= 64 && y + h <= 64);
            placed.push((x, y, w, h));
        }
    }
    assert!(placed.len() > 5);
    assert!(all_apart(&placed));
}

#[test]
fn max_rects_picks_the_tightest_free_rectangle() {
    let mut a = MaxRectsAllocator::new(100, 100);
    assert_eq!(a.dimensions(), (100, 100));
    assert_eq!(a.allocate(50, 50), Some((0, 0)));
    assert_eq!(a.allocate(50, 50), Some((50, 0)));
    assert_eq!(a.allocate(100, 50), Some((0, 50)));
    assert_eq!(a.allocate(1, 1), None);
}

#[test]
fn max_rects_refuses_too_large() {
    let mut a = MaxRectsAllocator::new(10, 10);
    assert_eq!(a.allocate(11, 1), None);
    assert_eq!(a.allocate(10, 10), Some((0, 0)));
    assert_eq!(a.allocate(1, 1), None);
}

#[test]
fn max_rects_zero_sized_in_a_maximal_atlas_finds_nothing() {
    let mut a = MaxRectsAllocator::new(u32::MAX, u32::MAX);
    assert_eq!(a.allocate(0, 0), None);
    assert_eq!(a.allocate(1, 0), Some((0, 0)));
}

#[test]
fn max_rects_allocations_never_overlap() {
    let mut a = MaxRectsAllocator::new(64, 64);
    let mut placed = Vec::new();
    for k in 1..60u32 {
        let (w, h) = (k % 9 + 2, k % 4 + 3);
        if let Some((x, y)) = a.allocate(w, h) {
            assert!(x + w <= 64 && y + h <= 64);
            placed.push((x, y, w, h));
        }
    }
    assert!(placed.len() > 10);
    assert!(all_apart(&placed));
}

#[test]
fn atlas_entry_holds_its_place() {
    let e = AtlasEntry { x: 4, y: 5, width: 10, height: 12 };
    let f = e;
    assert_eq!((f.x, f.y, f.width, f.height), (4, 5, 10, 12));
}

fn checker(w: u32, h: u32) -> PixelBuffer<u8> {
    let mut b = PixelBuffer::new(w, h, 0u8);
    for y in 0..h {
        for x in 0..w {
            b.put_pixel(x, y, (10 * y + x + 1) as u8);
        }
    }
    b
}

#[test]
fn pixel_buffer_reads_what_was_written() {
    let mut b = PixelBuffer::new(3, 2, 7u8);
    assert_eq!(b.pixels.len(), 6);
    assert_eq!(b.dimensions(), (3, 2));
    b.put_pixel(2, 1, 9);
    assert_eq!(b.get_pixel(2, 1), 9);
    assert_eq!(b.pixels[5], 9);
    assert_eq!(b.get_pixel(0, 0), 7);
}

#[test]
fn atlas_copies_image_inside_its_padding() {
    let mut atlas: Atlas<u32, u8, ShelfAllocator> = Atlas::new(8, 8, ShelfAllocator::new(8, 8), 1, 0u8);
    let src = checker(2, 3);
    assert_eq!(atlas.add_image(5, &src), Ok(()));
    let e = atlas.table[&5];
    assert_eq!((e.x, e.y, e.width, e.height), (1, 1, 2, 3));
    for y in 0..3 {
        for x in 0..2 {
            assert_eq!(atlas.image.get_pixel(1 + x, 1 + y), src.get_pixel(x, y));
        }
    }
    assert_eq!(atlas.image.get_pixel(0, 0), 0);
    assert_eq!(atlas.image.get_pixel(3, 1), 0);
    assert_eq!(atlas.image.get_pixel(1, 4), 0);
}

#[test]
fn atlas_second_image_goes_beside_the_first() {
    let mut atlas: Atlas<u32, u8, ShelfAllocator> = Atlas::new(8, 8, ShelfAllocator::new(8, 8), 1, 0u8);
    assert_eq!(atlas.add_image(1, &checker(2, 2)), Ok(()));
    assert_eq!(atlas.add_image(2, &checker(2, 2)), Ok(()));
    let e = atlas.table[&2];
    assert_eq!((e.x, e.y), (5, 1));
    assert_eq!(atlas.image.get_pixel(5, 1), 1);
    assert_eq!(atlas.image.get_pixel(6, 2), 12);
}

#[test]
fn atlas_full_leaves_image_and_table() {
    let mut atlas: Atlas<u32, u8, MaxRectsAllocator> = Atlas::new(4, 4, MaxRectsAllocator::new(4, 4), 0, 0u8);
    assert_eq!(atlas.add_image(1, &checker(4, 4)), Ok(()));
    let before = atlas.image.pixels.clone();
    assert_eq!(atlas.add_image(2, &checker(1, 1)), Err("Atlas Full"));
    assert_eq!(atlas.image.pixels, before);
    assert_eq!(atlas.table.len(), 1);
}

#[test]
fn shelf_places_too_wide_rectangle_at_left_edge() {
    let mut s = ShelfAllocator::new(10, 10);
    assert_eq!(s.allocate(12, 3), Some((0, 0)));
    assert_eq!(s.allocate(2, 3), Some((0, 3)));
    assert_eq!(s.dimensions(), (10, 10));
}

#[test]
fn max_rects_best_short_side_fit_is_not_first_fit() {
    let mut a = MaxRectsAllocator::new(10, 10);
    assert_eq!(a.allocate(6, 6), Some((0, 0)));
    // The strip below leaves a short side of 0; the strip to the right leaves 1.
    assert_eq!(a.allocate(3, 4), Some((0, 6)));
}

#[test]
fn atlas_images_under_different_keys_share_no_cell() {
    let mut atlas: Atlas<u32, u8, MaxRectsAllocator> = Atlas::new(16, 16, MaxRectsAllocator::new(16, 16), 1, 0u8);
    for k in 0..6u32 {
        assert_eq!(atlas.add_image(k, &checker(k % 3 + 1, k % 2 + 2)), Ok(()));
    }
    let mut rects = Vec::new();
    for k in 0..6u32 {
        let e = atlas.table[&k];
        assert_eq!((e.width, e.height), (k % 3 + 1, k % 2 + 2));
        assert!(e.x >= 1 && e.y >= 1 && e.x + e.width <= 16 && e.y + e.height <= 16);
        rects.push((e.x, e.y, e.width, e.height));
    }
    assert!(all_apart(&rects));
}

#[test]
fn atlas_entry_is_the_allocated_corner_past_the_padding() {
    let mut atlas: Atlas<u32, u8, MaxRectsAllocator> = Atlas::new(10, 10, MaxRectsAllocator::new(10, 10), 2, 0u8);
    assert_eq!(atlas.add_image(7, &checker(3, 1)), Ok(()));
    let e = atlas.table[&7];
    assert_eq!((e.x, e.y, e.width, e.height), (2, 2, 3, 1));
    assert_eq!(atlas.add_image(8, &checker(7, 7)), Err("Atlas Full"));
    assert_eq!(atlas.table.len(), 1);
}

#[test]
fn max_rects_atlas_refuses_too_wide_image_as_full() {
    let mut atlas: Atlas<u32, u8, MaxRectsAllocator> = Atlas::new(4, 4, MaxRectsAllocator::new(4, 4), 0, 0u8);
    let wide = checker(6, 1);
    assert!(atlas.can_add(&wide));
    assert_eq!(atlas.add_image(1, &wide), Err("Atlas Full"));
    assert!(atlas.table.is_empty());
}

#[test]
fn shelf_atlas_cannot_take_image_that_overhangs() {
    let atlas: Atlas<u32, u8, ShelfAllocator> = Atlas::new(4, 4, ShelfAllocator::new(4, 4), 0, 0u8);
    assert!(!atlas.can_add(&checker(6, 1)));
    assert!(atlas.can_add(&checker(4, 1)));
}

#[test]
fn allocator_larger_than_the_atlas() {
    let mut atlas: Atlas<u32, u8, MaxRectsAllocator> = Atlas::new(4, 4, MaxRectsAllocator::new(8, 8), 0, 0u8);
    assert!(atlas.can_add(&checker(2, 2)));
    assert_eq!(atlas.add_image(1, &checker(2, 2)), Ok(()));
    assert!(!atlas.can_add(&checker(6, 6)));
}

#[test]
fn allocators_tell_where_they_would_place() {
    let mut a = MaxRectsAllocator::new(10, 10);
    assert_eq!(a.place(6, 6), Some((0, 0)));
    assert_eq!(a.allocate(6, 6), Some((0, 0)));
    assert_eq!(a.place(3, 4), Some((0, 6)));
    assert_eq!(a.place(11, 1), None);
    let mut s = ShelfAllocator::new(10, 10);
    assert_eq!(s.place(4, 3), Some((0, 0)));
    assert_eq!(s.allocate(4, 3), Some((0, 0)));
    assert_eq!(s.place(4, 3), Some((4, 0)));
    assert_eq!(s.place(4, 8), None);
}
