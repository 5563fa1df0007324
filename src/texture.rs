//! Texture pages: an RGB8 pixel buffer, and the guillotine packer that hands
//! out non-overlapping views of it.

use vstd::prelude::*;
use crate::rect::{
    Rect, pairwise_disjoint, sort_by_area, sorted_by_area_vec, lemma_sort_contents,
    lemma_sort_disjoint, lemma_within_disjoint,
};

verus! {

/// An RGB8 pixel buffer, row-major, origin top-left.
pub struct Texture {
    data: Vec<u8>,
    width: u32,
    height: u32,
}

/// An exclusive rectangle of one page, handed out by its allocator.
pub struct TextureView {
    view: Rect,
}

/// The free-rectangle list of one page.
pub struct TextureViewAllocator {
    width: u32,
    height: u32,
    free_space: Vec<Rect>,
    /// Every view handed out so far, in order.
    issued: Ghost<Seq<Rect>>,
}

impl View for TextureView {
    type V = Rect;

    closed spec fn view(&self) -> Rect {
        self.view
    }
}

impl TextureView {
    pub fn get_view(&self) -> (r: Rect)
        ensures
            r == self@,
    {
        self.view
    }
}

/// `r` has room for a `w` x `h` block.
pub open spec fn fits(r: Rect, w: int, h: int) -> bool {
    w <= r.spec_width() && h <= r.spec_height()
}

/// `pos` is the first rectangle of `s` with room for `w` x `h`.
pub open spec fn is_first_fit(s: Seq<Rect>, w: int, h: int, pos: int) -> bool {
    0 <= pos < s.len() && fits(s[pos], w, h) && forall|j: int| 0 <= j < pos ==> !fits(#[trigger] s[j], w, h)
}

/// The top-left `w` x `h` block of `slot`.
pub open spec fn placed(slot: Rect, w: int, h: int) -> Rect {
    Rect {
        min_x: slot.min_x,
        min_y: slot.min_y,
        max_x: (slot.min_x + w) as u32,
        max_y: (slot.min_y + h) as u32,
    }
}

/// What is left of `slot` once its top-left `w` x `h` block is taken: cut
/// along the smaller remainder first; an empty piece is left out.
pub open spec fn split_pieces(slot: Rect, w: int, h: int) -> Seq<Rect> {
    let free_w = slot.spec_width() - w;
    let free_h = slot.spec_height() - h;
    let x = (slot.min_x + w) as u32;
    let y = (slot.min_y + h) as u32;
    if free_w < free_h {
        let right = Rect { min_x: x, min_y: slot.min_y, max_x: slot.max_x, max_y: y };
        let bottom = Rect { min_x: slot.min_x, min_y: y, max_x: slot.max_x, max_y: slot.max_y };
        (if free_w > 0 { seq![right] } else { Seq::empty() }) + (if free_h > 0 { seq![bottom] } else { Seq::empty() })
    } else {
        let bottom = Rect { min_x: slot.min_x, min_y: y, max_x: x, max_y: slot.max_y };
        let right = Rect { min_x: x, min_y: slot.min_y, max_x: slot.max_x, max_y: slot.max_y };
        (if free_h > 0 { seq![bottom] } else { Seq::empty() }) + (if free_w > 0 { seq![right] } else { Seq::empty() })
    }
}

/// `s` without position `pos`, whose place the last element takes.
pub open spec fn swap_removed(s: Seq<Rect>, pos: int) -> Seq<Rect> {
    s.update(pos, s.last()).drop_last()
}

/// Position of the first rectangle of `s` with room for `w` x `h`.
pub open spec fn first_fit(s: Seq<Rect>, w: int, h: int) -> int {
    choose|pos: int| is_first_fit(s, w, h, pos)
}

/// There is one first fit at most.
pub proof fn lemma_first_fit(s: Seq<Rect>, w: int, h: int, pos: int)
    requires
        is_first_fit(s, w, h, pos),
    ensures
        first_fit(s, w, h) == pos,
{
    let p = first_fit(s, w, h);
    assert(is_first_fit(s, w, h, p));
    if p < pos {
        assert(!fits(s[p], w, h));
    } else if pos < p {
        assert(!fits(s[pos], w, h));
    }
}

pub open spec fn view_of(r: Option<TextureView>) -> Option<Rect> {
    match r {
        Some(v) => Some(v@),
        None => None,
    }
}

/// `post` is `pre` after a request for a `w` x `h` view that returned `r`:
/// an empty request, or one that no free rectangle has room for, fails and
/// changes nothing; otherwise the view is the top-left block of the first
/// free rectangle with room, and the free list is updated as `free_after`
/// says.
pub open spec fn allocation(pre: TextureViewAllocator, post: TextureViewAllocator, w: int, h: int, r: Option<Rect>) -> bool {
    &&& post.wf()
    &&& post.page_width() == pre.page_width()
    &&& post.page_height() == pre.page_height()
    &&& r.is_some() <==> (w > 0 && h > 0 && exists|i: int| 0 <= i < pre.free_rects().len() && fits(#[trigger] pre.free_rects()[i], w, h))
    &&& r.is_none() ==> post == pre
    &&& r matches Some(v) ==> {
        let pos = first_fit(pre.free_rects(), w, h);
        &&& is_first_fit(pre.free_rects(), w, h, pos)
        &&& v == placed(pre.free_rects()[pos], w, h)
        &&& post.free_rects() == free_after(pre.free_rects(), pos, w, h)
        &&& post.views() == pre.views().push(v)
    }
}

/// Every view an allocator has handed out lies in its page, and no two of
/// them share a pixel, whatever sequence of requests produced them.
pub proof fn lemma_views_disjoint(a: TextureViewAllocator)
    requires
        a.wf(),
    ensures
        forall|i: int| 0 <= i < a.views().len() ==> (#[trigger] a.views()[i]).inside(a.page_width(), a.page_height()),
        forall|i: int, j: int| 0 <= i < j < a.views().len() ==> (#[trigger] a.views()[i]).disjoint(#[trigger] a.views()[j]),
{
}

/// A request for an empty view fails and leaves the allocator as it was.
pub proof fn lemma_empty_request_fails(pre: TextureViewAllocator, post: TextureViewAllocator, w: int, h: int, r: Option<Rect>)
    requires
        allocation(pre, post, w, h, r),
        w == 0 || h == 0,
    ensures
        r.is_none(),
        post == pre,
{
}

/// The free list after a `w` x `h` block is taken from position `pos`.
pub open spec fn free_after(s: Seq<Rect>, pos: int, w: int, h: int) -> Seq<Rect> {
    sort_by_area(swap_removed(s, pos) + split_pieces(s[pos], w, h))
}

proof fn lemma_area_sum_nonneg(s: Seq<Rect>)
    requires
        forall|i: int| 0 <= i < s.len() ==> (#[trigger] s[i]).wf(),
    ensures
        area_sum(s) >= 0,
    decreases s.len(),
{
    if s.len() > 0 {
        let init = s.drop_last();
        assert forall|i: int| 0 <= i < init.len() implies (#[trigger] init[i]).wf() by {
            assert(init[i] == s[i]);
        }
        lemma_area_sum_nonneg(init);
        let r = s.last();
        assert(r.wf());
        assert(r.area() >= 0) by (nonlinear_arith)
            requires r.spec_width() >= 0, r.spec_height() >= 0, r.area() == r.spec_width() * r.spec_height();
    }
}

/// Sum of the areas of `s`.
pub open spec fn area_sum(s: Seq<Rect>) -> int
    decreases s.len(),
{
    if s.len() == 0 {
        0
    } else {
        area_sum(s.drop_last()) + s.last().area()
    }
}

impl TextureViewAllocator {
    /// Page width and height.
    pub fn page_size(&self) -> (r: (u32, u32))
        requires
            self.wf(),
        ensures
            r.0 == self.page_width(),
            r.1 == self.page_height(),
    {
        (self.width, self.height)
    }

    /// Total area of the free rectangles, in pixels, saturated at `u64::MAX`.
    pub fn free_area(&self) -> (r: u64)
        requires
            self.wf(),
        ensures
            r == (if area_sum(self.free_rects()) <= u64::MAX { area_sum(self.free_rects()) } else { u64::MAX as int }),
    {
        let mut sum: u64 = 0;
        let mut i: usize = 0;
        while i < self.free_space.len()
            invariant
                self.wf(),
                0 <= i <= self.free_space@.len(),
                sum == (if area_sum(self.free_space@.take(i as int)) <= u64::MAX {
                    area_sum(self.free_space@.take(i as int))
                } else {
                    u64::MAX as int
                }),
            decreases self.free_space@.len() - i,
        {
            let a = self.free_space[i].pixel_area();
            proof {
                let t = self.free_space@.take(i + 1);
                assert(t.drop_last() =~= self.free_space@.take(i as int));
                assert(self.free_space@[i as int].inside(self.page_width(), self.page_height()));
                assert(area_sum(self.free_space@.take(i as int)) >= 0) by {
                    lemma_area_sum_nonneg(self.free_space@.take(i as int));
                }
            }
            sum = if sum > u64::MAX - a { u64::MAX } else { sum + a };
            i = i + 1;
        }
        proof {
            assert(self.free_space@.take(self.free_space@.len() as int) =~= self.free_space@);
        }
        sum
    }

    /// Free rectangles, smallest area first.
    pub closed spec fn free_rects(&self) -> Seq<Rect> {
        self.free_space@
    }

    /// The views handed out so far, oldest first.
    pub closed spec fn views(&self) -> Seq<Rect> {
        self.issued@
    }

    pub closed spec fn page_width(&self) -> int {
        self.width as int
    }

    pub closed spec fn page_height(&self) -> int {
        self.height as int
    }

    /// Free rectangles and views lie in the page, and no two of them share
    /// a pixel.
    pub open spec fn wf(&self) -> bool {
        let free = self.free_rects();
        let views = self.views();
        &&& forall|i: int| 0 <= i < free.len() ==> (#[trigger] free[i]).inside(self.page_width(), self.page_height())
        &&& forall|i: int| 0 <= i < views.len() ==> (#[trigger] views[i]).inside(self.page_width(), self.page_height())
        &&& pairwise_disjoint(free)
        &&& pairwise_disjoint(views)
        &&& forall|i: int, j: int|
            0 <= i < free.len() && 0 <= j < views.len() ==> (#[trigger] free[i]).disjoint(#[trigger] views[j])
        &&& self.page_width() <= u32::MAX && self.page_height() <= u32::MAX
    }

    /// Takes the first free rectangle with room for `width` x `height`,
    /// returns its top-left block as a view and keeps the rest free, sorted
    /// by area. Fails for an empty request and when no rectangle has room.
    pub fn allocate(&mut self, width: u32, height: u32) -> (r: Option<TextureView>)
        requires
            old(self).wf(),
        ensures
            allocation(*old(self), *final(self), width as int, height as int, view_of(r)),
    {
        if width == 0 || height == 0 {
            return None;
        }
        let mut pos: usize = 0;
        while pos < self.free_space.len()
            && !(width <= self.free_space[pos].width() && height <= self.free_space[pos].height())
            invariant
                self.wf(),
                0 <= pos <= self.free_space@.len(),
                forall|j: int| 0 <= j < pos ==> !fits(#[trigger] self.free_space@[j], width as int, height as int),
            decreases self.free_space@.len() - pos,
        {
            pos = pos + 1;
        }
        if pos == self.free_space.len() {
            return None;
        }
        let ghost old_free = self.free_space@;
        let ghost old_views = self.issued@;
        let slot = self.free_space.swap_remove(pos);
        let free_width = slot.width() - width;
        let free_height = slot.height() - height;
        let x = slot.min_x + width;
        let y = slot.min_y + height;
        let mut pieces: Vec<Rect> = Vec::new();
        if free_width < free_height {
            if free_width > 0 {
                pieces.push(Rect::new(x, slot.min_y, slot.max_x, y));
            }
            if free_height > 0 {
                pieces.push(Rect::new(slot.min_x, y, slot.max_x, slot.max_y));
            }
        } else {
            if free_height > 0 {
                pieces.push(Rect::new(slot.min_x, y, x, slot.max_y));
            }
            if free_width > 0 {
                pieces.push(Rect::new(x, slot.min_y, slot.max_x, slot.max_y));
            }
        }
        let view = Rect::new(slot.min_x, slot.min_y, x, y);
        proof {
            let w = width as int;
            let h = height as int;
            assert(pieces@ =~= split_pieces(slot, w, h));
            let rest = swap_removed(old_free, pos as int);
            assert(self.free_space@ =~= rest);
            let all = rest + pieces@;
            // every piece and the view lie in the slot, apart from each other
            assert forall|k: int| 0 <= k < pieces@.len() implies (#[trigger] pieces@[k]).within(slot)
                && pieces@[k].disjoint(view) && pieces@[k].inside(self.width as int, self.height as int) by {}
            assert(view.within(slot));
            assert forall|k: int| 0 <= k < rest.len() implies exists|j: int|
                0 <= j < old_free.len() && j != pos && #[trigger] rest[k] == old_free[j] by {
                if k == pos {
                    assert(rest[k] == old_free[old_free.len() - 1]);
                } else {
                    assert(rest[k] == old_free[k]);
                }
            }
            assert(pairwise_disjoint(all)) by {
                assert forall|i: int, j: int|
                    0 <= i < all.len() && 0 <= j < all.len() && i != j implies (#[trigger] all[i]).disjoint(
                    #[trigger] all[j],
                ) by {
                    if i < rest.len() && j < rest.len() {
                        let a = if i == pos as int { old_free.len() - 1 } else { i };
                        let b = if j == pos as int { old_free.len() - 1 } else { j };
                        assert(rest[i] == old_free[a] && rest[j] == old_free[b]);
                        assert(old_free[a].disjoint(old_free[b]));
                    } else if i < rest.len() {
                        let a = choose|a: int| 0 <= a < old_free.len() && a != pos && rest[i] == old_free[a];
                        assert(old_free[a].disjoint(slot));
                        lemma_within_disjoint(all[j], slot, old_free[a]);
                    } else if j < rest.len() {
                        let b = choose|b: int| 0 <= b < old_free.len() && b != pos && rest[j] == old_free[b];
                        assert(old_free[b].disjoint(slot));
                        lemma_within_disjoint(all[i], slot, old_free[b]);
                    } else {
                        assert(all[i] == pieces@[i - rest.len()]);
                        assert(all[j] == pieces@[j - rest.len()]);
                    }
                }
            }
            assert forall|k: int| 0 <= k < all.len() implies (#[trigger] all[k]).wf() by {
                if k < rest.len() {
                    let a = choose|a: int| 0 <= a < old_free.len() && a != pos && rest[k] == old_free[a];
                } else {
                    assert(all[k] == pieces@[k - rest.len()]);
                }
            }
        }
        self.free_space.append(&mut pieces);
        let sorted = sorted_by_area_vec(&self.free_space);
        self.free_space = sorted;
        proof {
            let w = width as int;
            let h = height as int;
            let rest = swap_removed(old_free, pos as int);
            let all = rest + split_pieces(slot, w, h);
            assert(self.free_space@ == sort_by_area(all));
            lemma_sort_disjoint(all);
            lemma_sort_contents(all);
            self.issued = Ghost(old_views.push(view));
            let free = self.free_space@;
            let views = self.issued@;
            // where each rectangle of `all` comes from
            assert forall|k: int| 0 <= k < all.len() implies (#[trigger] all[k]).inside(self.width as int, self.height as int)
                && (forall|j: int| 0 <= j < views.len() ==> all[k].disjoint(#[trigger] views[j])) by {
                if k < rest.len() {
                    let a = if k == pos as int { old_free.len() - 1 } else { k };
                    assert(rest[k] == old_free[a]);
                    assert forall|j: int| 0 <= j < views.len() implies all[k].disjoint(#[trigger] views[j]) by {
                        if j < old_views.len() {
                            assert(views[j] == old_views[j]);
                        } else {
                            assert(old_free[a].disjoint(slot));
                            lemma_within_disjoint(view, slot, old_free[a]);
                        }
                    }
                } else {
                    let p = all[k];
                    assert(p == split_pieces(slot, w, h)[k - rest.len()]);
                    assert forall|j: int| 0 <= j < views.len() implies p.disjoint(#[trigger] views[j]) by {
                        if j < old_views.len() {
                            assert(views[j] == old_views[j]);
                            lemma_within_disjoint(p, slot, old_views[j]);
                        }
                    }
                }
            }
            assert forall|i: int, j: int|
                0 <= i < free.len() && 0 <= j < views.len() implies (#[trigger] free[i]).disjoint(#[trigger] views[j]) by {
                let a = choose|a: int| 0 <= a < all.len() && free[i] == all[a];
            }
            assert forall|i: int| 0 <= i < free.len() implies (#[trigger] free[i]).inside(self.width as int, self.height as int) by {
                let a = choose|a: int| 0 <= a < all.len() && free[i] == all[a];
            }
            assert(pairwise_disjoint(views)) by {
                assert forall|i: int, j: int|
                    0 <= i < views.len() && 0 <= j < views.len() && i != j implies (#[trigger] views[i]).disjoint(
                    #[trigger] views[j],
                ) by {
                    if i < old_views.len() && j < old_views.len() {
                    } else if i < old_views.len() {
                        lemma_within_disjoint(view, slot, old_views[i]);
                    } else if j < old_views.len() {
                        lemma_within_disjoint(view, slot, old_views[j]);
                    }
                }
            }
            assert(is_first_fit(old_free, w, h, pos as int));
            lemma_first_fit(old_free, w, h, pos as int);
        }
        Some(TextureView { view })
    }
}

/// Byte offset of pixel `(x, y)` in a row-major RGB8 buffer `tw` pixels wide.
pub open spec fn offset(tw: int, x: int, y: int) -> int {
    3 * (y * tw + x)
}

/// The three channels of pixel `(x, y)`.
pub open spec fn pixel_of(d: Seq<u8>, tw: int, x: int, y: int) -> Seq<u8> {
    d.subrange(offset(tw, x, y), offset(tw, x, y) + 3)
}

/// Pixel `(x, y)` where it lies in `v`, black elsewhere.
pub open spec fn neighbour(d: Seq<u8>, tw: int, v: Rect, x: int, y: int) -> Seq<u8> {
    if v.contains_pixel(x, y) {
        pixel_of(d, tw, x, y)
    } else {
        seq![0u8, 0u8, 0u8]
    }
}

/// `pv` describes pixel `(x, y)` of view `v` in the buffer `d`: its place in
/// the view, and its four neighbours that come earlier in row-major order.
pub open spec fn describes(pv: PixelView, d: Seq<u8>, tw: int, v: Rect, x: int, y: int) -> bool {
    &&& pv.x == x - v.min_x
    &&& pv.y == y - v.min_y
    &&& pv.width == v.spec_width()
    &&& pv.height == v.spec_height()
    &&& pv.top_pixel@ == neighbour(d, tw, v, x, y - 1)
    &&& pv.left_pixel@ == neighbour(d, tw, v, x - 1, y)
    &&& pv.top_left_pixel@ == neighbour(d, tw, v, x - 1, y - 1)
    &&& pv.top_right_pixel@ == neighbour(d, tw, v, x + 1, y - 1)
}

/// Pixel `(x, y)` of `d` holds what `func` returned for a description of it.
pub open spec fn written_by<F: Fn(PixelView) -> [u8; 3]>(func: F, d: Seq<u8>, tw: int, v: Rect, x: int, y: int) -> bool {
    exists|pv: PixelView, out: [u8; 3]|
        describes(pv, d, tw, v, x, y) && out@ == pixel_of(d, tw, x, y) && #[trigger] func.ensures((pv,), out)
}

/// Where the writing function never returns a zero channel, no pixel it
/// wrote reads as zero: a written pixel can be told from one never written.
pub proof fn lemma_written_nonzero<F: Fn(PixelView) -> [u8; 3]>(func: F, d: Seq<u8>, tw: int, v: Rect, x: int, y: int, c: int)
    requires
        written_by(func, d, tw, v, x, y),
        forall|pv: PixelView, out: [u8; 3]| #[trigger] func.ensures((pv,), out) ==> out[0] != 0 && out[1] != 0 && out[2] != 0,
        0 <= c < 3,
    ensures
        pixel_of(d, tw, x, y)[c] != 0,
{
    let (pv, out) = choose|pv: PixelView, out: [u8; 3]|
        describes(pv, d, tw, v, x, y) && out@ == pixel_of(d, tw, x, y) && #[trigger] func.ensures((pv,), out);
    assert(out@[c] == out[c]);
}

/// A pixel and what the pixel-writing pass knows of its neighbourhood.
#[derive(Clone, Copy)]
pub struct PixelView {
    pub x: u32,
    pub y: u32,
    pub width: u32,
    pub height: u32,
    pub top_pixel: [u8; 3],
    pub left_pixel: [u8; 3],
    pub top_left_pixel: [u8; 3],
    pub top_right_pixel: [u8; 3],
}

proof fn lemma_offset_bounds(tw: int, th: int, x: int, y: int)
    requires
        0 <= x < tw,
        0 <= y < th,
    ensures
        0 <= y * tw <= y * tw + x,
        0 <= offset(tw, x, y),
        offset(tw, x, y) + 3 <= 3 * tw * th,
{
    assert(y * tw + x < (y + 1) * tw) by (nonlinear_arith)
        requires x < tw;
    assert((y + 1) * tw <= th * tw) by (nonlinear_arith)
        requires y + 1 <= th, 0 <= tw;
    assert(0 <= y * tw) by (nonlinear_arith)
        requires 0 <= y, 0 <= tw;
    assert(3 * tw * th == 3 * (th * tw)) by (nonlinear_arith);
}

proof fn lemma_offset_distinct(tw: int, x1: int, y1: int, c1: int, x2: int, y2: int, c2: int)
    requires
        0 <= x1 < tw,
        0 <= x2 < tw,
        0 <= y1,
        0 <= y2,
        0 <= c1 < 3,
        0 <= c2 < 3,
        offset(tw, x1, y1) + c1 == offset(tw, x2, y2) + c2,
    ensures
        x1 == x2 && y1 == y2 && c1 == c2,
{
    let a = y1 * tw + x1;
    let b = y2 * tw + x2;
    assert(a == b && c1 == c2);
    if y1 < y2 {
        assert(y1 * tw + tw <= y2 * tw) by (nonlinear_arith)
            requires y1 + 1 <= y2, 0 <= tw;
    } else if y2 < y1 {
        assert(y2 * tw + tw <= y1 * tw) by (nonlinear_arith)
            requires y2 + 1 <= y1, 0 <= tw;
    }
}


/// Writing the three bytes of pixel `(x, y)` leaves every other pixel as it
/// was.
proof fn lemma_write_pixel(d1: Seq<u8>, d2: Seq<u8>, tw: int, th: int, x: int, y: int)
    requires
        0 <= x < tw,
        0 <= y < th,
        d1.len() == 3 * tw * th,
        d2.len() == d1.len(),
        forall|i: int| 0 <= i < d1.len() && !(offset(tw, x, y) <= i < offset(tw, x, y) + 3) ==> d2[i] == d1[i],
    ensures
        forall|qx: int, qy: int|
            0 <= qx < tw && 0 <= qy < th && !(qx == x && qy == y) ==> #[trigger] pixel_of(d2, tw, qx, qy) == pixel_of(d1, tw, qx, qy),
{
    lemma_offset_bounds(tw, th, x, y);
    assert forall|qx: int, qy: int|
        0 <= qx < tw && 0 <= qy < th && !(qx == x && qy == y) implies #[trigger] pixel_of(d2, tw, qx, qy) == pixel_of(d1, tw, qx, qy) by {
        lemma_offset_bounds(tw, th, qx, qy);
        assert forall|c: int| 0 <= c < 3 implies #[trigger] d2[offset(tw, qx, qy) + c] == d1[offset(tw, qx, qy) + c] by {
            let i = offset(tw, qx, qy) + c;
            if offset(tw, x, y) <= i < offset(tw, x, y) + 3 {
                lemma_offset_distinct(tw, qx, qy, c, x, y, i - offset(tw, x, y));
            }
        }
        assert forall|c: int| 0 <= c < 3 implies #[trigger] pixel_of(d2, tw, qx, qy)[c] == pixel_of(d1, tw, qx, qy)[c] by {
            assert(d2[offset(tw, qx, qy) + c] == d1[offset(tw, qx, qy) + c]);
        }
        assert(pixel_of(d2, tw, qx, qy) =~= pixel_of(d1, tw, qx, qy));
    }
}

/// What was written stays written while the pixel and its earlier
/// neighbours keep their bytes.
proof fn lemma_written_stable<F: Fn(PixelView) -> [u8; 3]>(func: F, d1: Seq<u8>, d2: Seq<u8>, tw: int, v: Rect, x: int, y: int)
    requires
        written_by(func, d1, tw, v, x, y),
        pixel_of(d2, tw, x, y) == pixel_of(d1, tw, x, y),
        v.contains_pixel(x, y - 1) ==> pixel_of(d2, tw, x, y - 1) == pixel_of(d1, tw, x, y - 1),
        v.contains_pixel(x - 1, y) ==> pixel_of(d2, tw, x - 1, y) == pixel_of(d1, tw, x - 1, y),
        v.contains_pixel(x - 1, y - 1) ==> pixel_of(d2, tw, x - 1, y - 1) == pixel_of(d1, tw, x - 1, y - 1),
        v.contains_pixel(x + 1, y - 1) ==> pixel_of(d2, tw, x + 1, y - 1) == pixel_of(d1, tw, x + 1, y - 1),
    ensures
        written_by(func, d2, tw, v, x, y),
{
    let (pv, out) = choose|pv: PixelView, out: [u8; 3]|
        describes(pv, d1, tw, v, x, y) && out@ == pixel_of(d1, tw, x, y) && #[trigger] func.ensures((pv,), out);
    assert(describes(pv, d2, tw, v, x, y));
}

impl Texture {
    pub closed spec fn pixels(&self) -> Seq<u8> {
        self.data@
    }

    pub closed spec fn spec_width(&self) -> int {
        self.width as int
    }

    pub closed spec fn spec_height(&self) -> int {
        self.height as int
    }

    /// Three bytes for each pixel.
    pub open spec fn wf(&self) -> bool {
        self.pixels().len() == 3 * self.spec_width() * self.spec_height()
    }

    /// A black `width` x `height` page, and an allocator whose one free
    /// rectangle is the whole page.
    pub fn new(width: u32, height: u32) -> (r: (Texture, TextureViewAllocator))
        requires
            3 * width * height <= usize::MAX,
        ensures
            r.0.wf(),
            r.0.spec_width() == width,
            r.0.spec_height() == height,
            forall|i: int| 0 <= i < r.0.pixels().len() ==> r.0.pixels()[i] == 0,
            r.1.wf(),
            r.1.page_width() == width,
            r.1.page_height() == height,
            r.1.free_rects() == seq![Rect { min_x: 0, min_y: 0, max_x: width, max_y: height }],
            r.1.views() == Seq::<Rect>::empty(),
    {
        proof {
            assert(width * height <= 3 * width * height) by (nonlinear_arith);
            assert(3 * width * height == 3 * (width * height)) by (nonlinear_arith);
        }
        let n: usize = 3 * (width as usize * height as usize);
        let mut data: Vec<u8> = Vec::new();
        while data.len() < n
            invariant
                data@.len() <= n,
                forall|i: int| 0 <= i < data@.len() ==> data@[i] == 0,
            decreases n - data@.len(),
        {
            data.push(0);
        }
        let texture = Texture { data, width, height };
        let allocator = TextureViewAllocator {
            width,
            height,
            free_space: vec![Rect::new(0, 0, width, height)],
            issued: Ghost(Seq::empty()),
        };
        proof {
            assert(allocator.free_space@ =~= seq![Rect { min_x: 0, min_y: 0, max_x: width, max_y: height }]);
        }
        (texture, allocator)
    }

    pub fn get_width(&self) -> (r: u32)
        ensures
            r == self.spec_width(),
    {
        self.width
    }

    pub fn get_height(&self) -> (r: u32)
        ensures
            r == self.spec_height(),
    {
        self.height
    }

    /// The pixel bytes, row-major, three per pixel.
    pub fn get_data(&self) -> (r: &[u8])
        ensures
            r@ == self.pixels(),
    {
        self.data.as_slice()
    }

    /// Byte offset of pixel `(x, y)`.
    fn pixel_offset(&self, x: u32, y: u32) -> (o: usize)
        requires
            self.wf(),
            x < self.spec_width(),
            y < self.spec_height(),
        ensures
            o == offset(self.spec_width(), x as int, y as int),
            o + 3 <= self.pixels().len(),
            o + 3 <= usize::MAX,
    {
        proof {
            lemma_offset_bounds(self.width as int, self.height as int, x as int, y as int);
        }
        let n = self.data.len();
        let row = y as usize * self.width as usize;
        3 * (row + x as usize)
    }

    /// The three bytes of pixel `(x, y)`.
    fn pixel_at(&self, x: u32, y: u32) -> (r: [u8; 3])
        requires
            self.wf(),
            x < self.spec_width(),
            y < self.spec_height(),
        ensures
            r@ == pixel_of(self.pixels(), self.spec_width(), x as int, y as int),
    {
        let o = self.pixel_offset(x, y);
        let r = [self.data[o], self.data[o + 1], self.data[o + 2]];
        proof {
            assert(r@ =~= pixel_of(self.pixels(), self.spec_width(), x as int, y as int));
        }
        r
    }

    /// Writes every pixel of `view`, row by row and left to right, with what
    /// `func` returns for a description of it whose neighbours are the
    /// pixels already written; pixels outside `view` keep their bytes.
    pub fn modify_view<F: Fn(PixelView) -> [u8; 3]>(&mut self, view: &TextureView, func: F)
        requires
            old(self).wf(),
            view@.inside(old(self).spec_width(), old(self).spec_height()),
            forall|pv: PixelView| #[trigger] func.requires((pv,)),
        ensures
            final(self).wf(),
            final(self).spec_width() == old(self).spec_width(),
            final(self).spec_height() == old(self).spec_height(),
            forall|x: int, y: int|
                view@.contains_pixel(x, y) ==> #[trigger] written_by(func, final(self).pixels(), final(self).spec_width(), view@, x, y),
            forall|x: int, y: int|
                0 <= x < old(self).spec_width() && 0 <= y < old(self).spec_height() && !view@.contains_pixel(x, y)
                    ==> #[trigger] pixel_of(final(self).pixels(), old(self).spec_width(), x, y)
                    == pixel_of(old(self).pixels(), old(self).spec_width(), x, y),
    {
        let v = view.view;
        let ghost tw = self.width as int;
        let ghost th = self.height as int;
        let ghost old_d = self.data@;
        let mut y: u32 = v.min_y;
        while y < v.max_y
            invariant
                self.wf(),
                self.width == tw,
                self.height == th,
                v == view@,
                v.inside(tw, th),
                v.min_y <= y <= v.max_y,
                forall|pv: PixelView| #[trigger] func.requires((pv,)),
                forall|qx: int, qy: int|
                    v.contains_pixel(qx, qy) && qy < y ==> #[trigger] written_by(func, self.data@, tw, v, qx, qy),
                forall|qx: int, qy: int|
                    0 <= qx < tw && 0 <= qy < th && !(v.contains_pixel(qx, qy) && qy < y)
                        ==> #[trigger] pixel_of(self.data@, tw, qx, qy) == pixel_of(old_d, tw, qx, qy),
            decreases v.max_y - y,
        {
            let mut x: u32 = v.min_x;
            while x < v.max_x
                invariant
                    self.wf(),
                    self.width == tw,
                    self.height == th,
                    v == view@,
                    v.inside(tw, th),
                    v.min_y <= y < v.max_y,
                    v.min_x <= x <= v.max_x,
                    forall|pv: PixelView| #[trigger] func.requires((pv,)),
                    forall|qx: int, qy: int|
                        v.contains_pixel(qx, qy) && (qy < y || (qy == y && qx < x))
                            ==> #[trigger] written_by(func, self.data@, tw, v, qx, qy),
                    forall|qx: int, qy: int|
                        0 <= qx < tw && 0 <= qy < th && !(v.contains_pixel(qx, qy) && (qy < y || (qy == y && qx < x)))
                            ==> #[trigger] pixel_of(self.data@, tw, qx, qy) == pixel_of(old_d, tw, qx, qy),
                decreases v.max_x - x,
            {
                let zero: [u8; 3] = [0, 0, 0];
                proof {
                    assert(zero@ =~= seq![0u8, 0u8, 0u8]);
                }
                let top_pixel = if y > v.min_y { self.pixel_at(x, y - 1) } else { zero };
                let left_pixel = if x > v.min_x { self.pixel_at(x - 1, y) } else { zero };
                let top_left_pixel = if x > v.min_x && y > v.min_y { self.pixel_at(x - 1, y - 1) } else { zero };
                let top_right_pixel = if y > v.min_y && x + 1 < v.max_x { self.pixel_at(x + 1, y - 1) } else { zero };
                let pv = PixelView {
                    x: x - v.min_x,
                    y: y - v.min_y,
                    width: v.width(),
                    height: v.height(),
                    top_pixel,
                    left_pixel,
                    top_left_pixel,
                    top_right_pixel,
                };
                let ghost d1 = self.data@;
                proof {
                    assert(describes(pv, d1, tw, v, x as int, y as int));
                }
                let out = func(pv);
                let o = self.pixel_offset(x, y);
                self.data.set(o, out[0]);
                self.data.set(o + 1, out[1]);
                self.data.set(o + 2, out[2]);
                proof {
                    let d2 = self.data@;
                    lemma_write_pixel(d1, d2, tw, th, x as int, y as int);
                    assert(pixel_of(d2, tw, x as int, y as int) =~= out@);
                    assert(describes(pv, d2, tw, v, x as int, y as int));
                    assert(written_by(func, d2, tw, v, x as int, y as int));
                    assert forall|qx: int, qy: int|
                        v.contains_pixel(qx, qy) && (qy < y || (qy == y && qx < x + 1))
                            implies #[trigger] written_by(func, d2, tw, v, qx, qy) by {
                        if !(qx == x && qy == y) {
                            lemma_written_stable(func, d1, d2, tw, v, qx, qy);
                        }
                    }
                }
                x = x + 1;
            }
            y = y + 1;
        }
    }
}

} // verus!
