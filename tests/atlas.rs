use mcsdf::rect::Rect;
use mcsdf::texture::{PixelView, Texture};

fn disjoint(a: &Rect, b: &Rect) -> bool {
    a.max_x <= b.min_x || b.max_x <= a.min_x || a.max_y <= b.min_y || b.max_y <= a.min_y
}

#[test]
fn rect_measures() {
    let r = Rect::new(2, 3, 10, 7);
    assert_eq!(r.width(), 8);
    assert_eq!(r.height(), 4);
    assert_eq!(r.pixel_area(), 32);
}

#[test]
fn new_texture_is_black_and_wholly_free() {
    let (texture, allocator) = Texture::new(4, 3);
    assert_eq!(texture.get_width(), 4);
    assert_eq!(texture.get_height(), 3);
    assert_eq!(texture.get_data().len(), 36);
    assert!(texture.get_data().iter().all(|b| *b == 0));
    assert_eq!(allocator.page_size(), (4, 3));
    assert_eq!(allocator.free_area(), 12);
}

#[test]
fn allocate_takes_top_left_and_splits_the_rest() {
    let (_texture, mut allocator) = Texture::new(64, 64);
    let a = allocator.allocate(10, 20).unwrap();
    assert_eq!(a.get_view(), Rect::new(0, 0, 10, 20));
    // free, smallest first: bottom strip 10x44, right part 54x64
    let b = allocator.allocate(50, 20).unwrap();
    assert_eq!(b.get_view(), Rect::new(10, 0, 60, 20));
    // free: 4x20, 10x44, 54x44; nothing is 64 wide any more
    assert!(allocator.allocate(64, 10).is_none());
    let c = allocator.allocate(54, 10).unwrap();
    assert_eq!(c.get_view(), Rect::new(10, 20, 64, 30));
    let d = allocator.allocate(4, 20).unwrap();
    assert_eq!(d.get_view(), Rect::new(60, 0, 64, 20));
    assert_eq!(allocator.free_area(), 64 * 64 - 200 - 1000 - 540 - 80);
}

#[test]
fn allocate_rejects_empty_and_oversized_requests() {
    let (_texture, mut allocator) = Texture::new(16, 16);
    assert!(allocator.allocate(0, 5).is_none());
    assert!(allocator.allocate(5, 0).is_none());
    assert!(allocator.allocate(17, 1).is_none());
    assert!(allocator.allocate(1, 17).is_none());
    assert_eq!(allocator.free_area(), 256);
    assert!(allocator.allocate(16, 16).is_some());
    assert!(allocator.allocate(1, 1).is_none());
    assert_eq!(allocator.free_area(), 0);
}

#[test]
fn allocated_views_never_overlap() {
    let (_texture, mut allocator) = Texture::new(128, 128);
    let sizes = [(30, 12), (7, 40), (12, 12), (50, 3), (9, 9), (25, 31), (3, 60), (40, 20), (16, 16), (1, 1)];
    let mut views = Vec::new();
    for (w, h) in sizes.iter() {
        if let Some(v) = allocator.allocate(*w, *h) {
            let r = v.get_view();
            assert_eq!(r.width(), *w);
            assert_eq!(r.height(), *h);
            assert!(r.max_x <= 128 && r.max_y <= 128);
            views.push(r);
        }
    }
    assert_eq!(views.len(), sizes.len());
    for i in 0..views.len() {
        for j in 0..views.len() {
            if i != j {
                assert!(disjoint(&views[i], &views[j]));
            }
        }
    }
}

#[test]
fn modify_view_writes_exactly_the_view() {
    let (mut texture, mut allocator) = Texture::new(8, 6);
    let _first = allocator.allocate(3, 6).unwrap();
    let view = allocator.allocate(4, 3).unwrap();
    assert_eq!(view.get_view(), Rect::new(3, 0, 7, 3));
    texture.modify_view(&view, |pv: PixelView| [pv.x as u8 + 1, pv.y as u8 + 1, 9]);
    let data = texture.get_data();
    for y in 0..6u32 {
        for x in 0..8u32 {
            let o = (3 * (y * 8 + x)) as usize;
            let pixel = [data[o], data[o + 1], data[o + 2]];
            if (3..7).contains(&x) && y < 3 {
                assert_eq!(pixel, [(x - 3) as u8 + 1, y as u8 + 1, 9]);
            } else {
                assert_eq!(pixel, [0, 0, 0]);
            }
        }
    }
}

#[test]
fn modify_view_passes_written_neighbours() {
    let (mut texture, mut allocator) = Texture::new(4, 4);
    let view = allocator.allocate(3, 3).unwrap();
    // each pixel stores a digest of what it was told of its neighbours
    texture.modify_view(&view, |pv: PixelView| {
        [
            (pv.y * 3 + pv.x) as u8 + 10,
            pv.top_pixel[0].wrapping_add(pv.left_pixel[0]),
            pv.top_left_pixel[0].wrapping_add(pv.top_right_pixel[0]),
        ]
    });
    let data = texture.get_data();
    let px = |x: u32, y: u32| {
        let o = (3 * (y * 4 + x)) as usize;
        [data[o], data[o + 1], data[o + 2]]
    };
    assert_eq!(px(0, 0), [10, 0, 0]);
    assert_eq!(px(1, 0), [11, 10, 0]);
    assert_eq!(px(0, 1), [13, 10, 11]);
    // centre: top 11, left 13, top-left 10, top-right 12
    assert_eq!(px(1, 1), [14, 24, 22]);
    // right column: no top-right neighbour inside the view
    assert_eq!(px(2, 1), [15, 12 + 14, 11]);
    assert_eq!(px(3, 3), [0, 0, 0]);
}

#[test]
fn every_pixel_of_a_rendered_view_reads_as_written() {
    let (mut texture, mut allocator) = Texture::new(32, 32);
    let views: Vec<_> = (0..10).map(|_| allocator.allocate(6, 5).unwrap()).collect();
    for v in views.iter() {
        mcsdf::clash::store_view(&mut texture, v, 10, &vec![[0, 0, 0]; 30]);
    }
    let data = texture.get_data();
    for v in views.iter() {
        let r = v.get_view();
        for y in r.min_y..r.max_y {
            for x in r.min_x..r.max_x {
                let o = (3 * (y * 32 + x)) as usize;
                assert_eq!([data[o], data[o + 1], data[o + 2]], [1, 1, 1]);
            }
        }
    }
}

#[test]
fn empty_page_has_no_room() {
    let (texture, mut allocator) = Texture::new(0, 5);
    assert_eq!(texture.get_data().len(), 0);
    assert!(allocator.allocate(1, 1).is_none());
    assert_eq!(allocator.free_area(), 0);
}

#[test]
fn sort_by_area_is_stable() {
    let rects = vec![
        Rect::new(0, 0, 4, 4),
        Rect::new(10, 10, 12, 18),
        Rect::new(0, 0, 1, 1),
        Rect::new(20, 20, 28, 22),
        Rect::new(5, 5, 5, 9),
    ];
    let sorted = mcsdf::rect::sorted_by_area_vec(&rects);
    assert_eq!(
        sorted,
        vec![
            Rect::new(5, 5, 5, 9),
            Rect::new(0, 0, 1, 1),
            Rect::new(0, 0, 4, 4),
            Rect::new(10, 10, 12, 18),
            Rect::new(20, 20, 28, 22),
        ]
    );
}

#[test]
fn free_list_prefers_small_leftovers() {
    let (_texture, mut allocator) = Texture::new(100, 40);
    // leaves a 10x30 strip below and a 90x40 part to the right
    let a = allocator.allocate(10, 10).unwrap();
    assert_eq!(a.get_view(), Rect::new(0, 0, 10, 10));
    // the smaller leftover is tried first
    let b = allocator.allocate(5, 5).unwrap();
    assert_eq!(b.get_view(), Rect::new(0, 10, 5, 15));
    // and a block that only the larger one has room for goes there
    let c = allocator.allocate(20, 5).unwrap();
    assert_eq!(c.get_view(), Rect::new(10, 0, 30, 5));
}

#[test]
fn stored_view_is_clash_corrected() {
    let (mut texture, mut allocator) = Texture::new(5, 5);
    let view = allocator.allocate(5, 4).unwrap();
    let mut raw = vec![[200u8, 40, 90]; 20];
    // an inner pixel whose high channels clash with the pixel above it
    raw[6] = [250, 250, 10];
    raw[11] = [10, 250, 250];
    mcsdf::clash::store_view(&mut texture, &view, 10, &raw);
    let data = texture.get_data();
    let px = |x: usize, y: usize| {
        let o = 3 * (y * 5 + x);
        [data[o], data[o + 1], data[o + 2]]
    };
    // border pixels are flattened to their median
    assert_eq!(px(0, 0), [90, 90, 90]);
    assert_eq!(px(4, 3), [90, 90, 90]);
    // (1, 1) clashes with nothing stored before it
    assert_eq!(px(1, 1), [250, 250, 10]);
    // (1, 2) clashes with (1, 1) above it
    assert_eq!(px(1, 2), [250, 250, 250]);
    // the row below the view is untouched
    assert_eq!(px(2, 4), [0, 0, 0]);
}
