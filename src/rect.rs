//! Axis-aligned integer rectangles in texture pixel space, and the order in
//! which a page keeps its free rectangles.

use vstd::prelude::*;

verus! {

/// A half-open pixel rectangle `[min_x, max_x) x [min_y, max_y)`.
#[derive(Clone, Copy, Debug, PartialEq, Eq, Structural)]
pub struct Rect {
    pub min_x: u32,
    pub min_y: u32,
    pub max_x: u32,
    pub max_y: u32,
}

impl Rect {
    /// Corners are ordered.
    pub open spec fn wf(self) -> bool {
        self.min_x <= self.max_x && self.min_y <= self.max_y
    }

    pub open spec fn spec_width(self) -> int {
        self.max_x - self.min_x
    }

    pub open spec fn spec_height(self) -> int {
        self.max_y - self.min_y
    }

    /// Number of pixels covered.
    pub open spec fn area(self) -> int {
        self.spec_width() * self.spec_height()
    }

    /// Lies within a `width` x `height` page.
    pub open spec fn inside(self, width: int, height: int) -> bool {
        self.wf() && self.max_x <= width && self.max_y <= height
    }

    /// Shares no pixel with `other`.
    pub open spec fn disjoint(self, other: Rect) -> bool {
        self.max_x <= other.min_x || other.max_x <= self.min_x || self.max_y <= other.min_y
            || other.max_y <= self.min_y
    }

    /// Every pixel of `self` is a pixel of `other`.
    pub open spec fn within(self, other: Rect) -> bool {
        other.min_x <= self.min_x && self.max_x <= other.max_x && other.min_y <= self.min_y
            && self.max_y <= other.max_y
    }

    /// Holds the pixel `(x, y)`.
    pub open spec fn contains_pixel(self, x: int, y: int) -> bool {
        self.min_x <= x < self.max_x && self.min_y <= y < self.max_y
    }

    pub fn new(min_x: u32, min_y: u32, max_x: u32, max_y: u32) -> (r: Rect)
        ensures
            r == (Rect { min_x, min_y, max_x, max_y }),
    {
        Rect { min_x, min_y, max_x, max_y }
    }

    pub fn width(&self) -> (r: u32)
        requires
            self.wf(),
        ensures
            r == self.spec_width(),
    {
        self.max_x - self.min_x
    }

    pub fn height(&self) -> (r: u32)
        requires
            self.wf(),
        ensures
            r == self.spec_height(),
    {
        self.max_y - self.min_y
    }

    /// Number of pixels, as a 64-bit value so that it cannot overflow.
    pub fn pixel_area(&self) -> (r: u64)
        requires
            self.wf(),
        ensures
            r == self.area(),
    {
        let w = self.width() as u64;
        let h = self.height() as u64;
        proof {
            assert(w * h <= 0xffff_ffffu64 * 0xffff_ffffu64) by (nonlinear_arith)
                requires w <= 0xffff_ffffu64, h <= 0xffff_ffffu64;
        }
        w * h
    }
}

/// A rectangle inside `outer` shares no pixel with whatever `outer` shares
/// none with.
pub proof fn lemma_within_disjoint(a: Rect, outer: Rect, b: Rect)
    requires
        a.within(outer),
        outer.disjoint(b),
    ensures
        a.disjoint(b),
        b.disjoint(a),
{
}

/// No two rectangles at different positions of `s` overlap.
pub open spec fn pairwise_disjoint(s: Seq<Rect>) -> bool {
    forall|i: int, j: int|
        0 <= i < s.len() && 0 <= j < s.len() && i != j ==> (#[trigger] s[i]).disjoint(
            #[trigger] s[j],
        )
}

/// Position at which `r` enters the area-sorted `s` so that it follows every
/// rectangle of no larger area that leads the sequence.
pub open spec fn insert_pos(s: Seq<Rect>, r: Rect) -> int
    decreases s.len(),
{
    if s.len() == 0 {
        0
    } else if s[0].area() <= r.area() {
        1 + insert_pos(s.drop_first(), r)
    } else {
        0
    }
}

/// Stable ascending sort by area: each rectangle in turn is placed after
/// every earlier one of no larger area.
pub open spec fn sort_by_area(s: Seq<Rect>) -> Seq<Rect>
    decreases s.len(),
{
    if s.len() == 0 {
        s
    } else {
        let rest = sort_by_area(s.drop_last());
        rest.insert(insert_pos(rest, s.last()), s.last())
    }
}

/// Ascending by area.
pub open spec fn sorted_by_area(s: Seq<Rect>) -> bool {
    forall|i: int, j: int| 0 <= i < j < s.len() ==> (#[trigger] s[i]).area() <= (#[trigger] s[j]).area()
}

pub proof fn lemma_insert_pos_bounds(s: Seq<Rect>, r: Rect)
    ensures
        0 <= insert_pos(s, r) <= s.len(),
        forall|k: int| 0 <= k < insert_pos(s, r) ==> (#[trigger] s[k]).area() <= r.area(),
        insert_pos(s, r) < s.len() ==> s[insert_pos(s, r)].area() > r.area(),
    decreases s.len(),
{
    if s.len() > 0 && s[0].area() <= r.area() {
        lemma_insert_pos_bounds(s.drop_first(), r);
        assert forall|k: int| 0 <= k < insert_pos(s, r) implies (#[trigger] s[k]).area()
            <= r.area() by {
            if k > 0 {
                assert(s[k] == s.drop_first()[k - 1]);
            }
        }
    }
}

/// The sort keeps the length, and every rectangle it yields was in `s`.
pub proof fn lemma_sort_contents(s: Seq<Rect>)
    ensures
        sort_by_area(s).len() == s.len(),
        forall|k: int|
            0 <= k < s.len() ==> exists|j: int| 0 <= j < s.len() && #[trigger] sort_by_area(s)[k] == s[j],
    decreases s.len(),
{
    if s.len() > 0 {
        let init = s.drop_last();
        lemma_sort_contents(init);
        let rest = sort_by_area(init);
        let p = insert_pos(rest, s.last());
        lemma_insert_pos_bounds(rest, s.last());
        rest.insert_ensures(p, s.last());
        assert forall|k: int| 0 <= k < s.len() implies exists|j: int|
            0 <= j < s.len() && #[trigger] sort_by_area(s)[k] == s[j] by {
            if k < p {
                let j = choose|j: int| 0 <= j < init.len() && rest[k] == init[j];
                assert(sort_by_area(s)[k] == s[j]);
            } else if k == p {
                assert(sort_by_area(s)[k] == s[s.len() - 1]);
            } else {
                let j = choose|j: int| 0 <= j < init.len() && rest[k - 1] == init[j];
                assert(sort_by_area(s)[k] == s[j]);
            }
        }
    }
}

/// The sort yields an area-ascending sequence.
pub proof fn lemma_sort_sorted(s: Seq<Rect>)
    ensures
        sorted_by_area(sort_by_area(s)),
    decreases s.len(),
{
    if s.len() > 0 {
        let init = s.drop_last();
        lemma_sort_sorted(init);
        lemma_sort_contents(init);
        let rest = sort_by_area(init);
        let x = s.last();
        let p = insert_pos(rest, x);
        lemma_insert_pos_bounds(rest, x);
        rest.insert_ensures(p, x);
        let out = sort_by_area(s);
        assert forall|i: int, j: int| 0 <= i < j < out.len() implies (#[trigger] out[i]).area()
            <= (#[trigger] out[j]).area() by {
            if j < p {
                assert(out[i] == rest[i] && out[j] == rest[j]);
            } else if j == p {
                assert(out[i] == rest[i]);
            } else if i < p {
                assert(out[i] == rest[i] && out[j] == rest[j - 1]);
            } else if i == p {
                assert(out[j] == rest[j - 1]);
                assert(rest[p].area() > x.area());
                if j - 1 > p {
                    assert(rest[p].area() <= rest[j - 1].area());
                }
            } else {
                assert(out[i] == rest[i - 1] && out[j] == rest[j - 1]);
            }
        }
    }
}

/// Sorting keeps rectangles apart that were apart.
pub proof fn lemma_sort_disjoint(s: Seq<Rect>)
    requires
        pairwise_disjoint(s),
    ensures
        pairwise_disjoint(sort_by_area(s)),
    decreases s.len(),
{
    if s.len() > 0 {
        let init = s.drop_last();
        assert(pairwise_disjoint(init)) by {
            assert forall|i: int, j: int|
                0 <= i < init.len() && 0 <= j < init.len() && i != j implies (#[trigger] init[i]).disjoint(
                #[trigger] init[j],
            ) by {
                assert(init[i] == s[i] && init[j] == s[j]);
            }
        }
        lemma_sort_disjoint(init);
        lemma_sort_contents(init);
        let rest = sort_by_area(init);
        let x = s.last();
        let p = insert_pos(rest, x);
        lemma_insert_pos_bounds(rest, x);
        rest.insert_ensures(p, x);
        let out = sort_by_area(s);
        assert forall|k: int| 0 <= k < rest.len() implies (#[trigger] rest[k]).disjoint(x) by {
            let j = choose|j: int| 0 <= j < init.len() && rest[k] == init[j];
            assert(init[j] == s[j]);
            assert(s[j].disjoint(s[s.len() - 1]));
        }
        assert forall|i: int, j: int|
            0 <= i < out.len() && 0 <= j < out.len() && i != j implies (#[trigger] out[i]).disjoint(
            #[trigger] out[j],
        ) by {
            let ri = if i < p { i } else { i - 1 };
            let rj = if j < p { j } else { j - 1 };
            if i == p {
                assert(out[j] == rest[rj]);
                assert(rest[rj].disjoint(x));
            } else if j == p {
                assert(out[i] == rest[ri]);
                assert(rest[ri].disjoint(x));
            } else {
                assert(out[i] == rest[ri] && out[j] == rest[rj]);
            }
        }
    }
}

/// Computes `insert_pos`.
fn find_insert_pos(s: &Vec<Rect>, r: &Rect) -> (k: usize)
    requires
        forall|i: int| 0 <= i < s@.len() ==> (#[trigger] s@[i]).wf(),
        r.wf(),
    ensures
        k == insert_pos(s@, *r),
        k <= s@.len(),
{
    proof {
        lemma_insert_pos_bounds(s@, *r);
        assert(s@.subrange(0, s@.len() as int) =~= s@);
    }
    let a = r.pixel_area();
    let mut k: usize = 0;
    while k < s.len() && s[k].pixel_area() <= a
        invariant
            0 <= k <= s@.len(),
            r.wf(),
            a == r.area(),
            forall|i: int| 0 <= i < s@.len() ==> (#[trigger] s@[i]).wf(),
            insert_pos(s@, *r) == k + insert_pos(s@.subrange(k as int, s@.len() as int), *r),
        decreases s@.len() - k,
    {
        let ghost tail = s@.subrange(k as int, s@.len() as int);
        assert(tail.drop_first() =~= s@.subrange(k + 1, s@.len() as int));
        k = k + 1;
    }
    proof {
        let tail = s@.subrange(k as int, s@.len() as int);
        if k < s@.len() {
            assert(tail[0] == s@[k as int]);
        }
    }
    k
}

/// Returns the rectangles of `v` in the order of `sort_by_area`.
pub fn sorted_by_area_vec(v: &Vec<Rect>) -> (r: Vec<Rect>)
    requires
        forall|i: int| 0 <= i < v@.len() ==> (#[trigger] v@[i]).wf(),
    ensures
        r@ == sort_by_area(v@),
{
    let mut out: Vec<Rect> = Vec::new();
    let mut i: usize = 0;
    while i < v.len()
        invariant
            0 <= i <= v@.len(),
            forall|k: int| 0 <= k < v@.len() ==> (#[trigger] v@[k]).wf(),
            out@ == sort_by_area(v@.take(i as int)),
        decreases v@.len() - i,
    {
        proof {
            lemma_sort_contents(v@.take(i as int));
            assert forall|k: int| 0 <= k < out@.len() implies (#[trigger] out@[k]).wf() by {
                let j = choose|j: int|
                    0 <= j < i && #[trigger] sort_by_area(v@.take(i as int))[k] == v@.take(
                        i as int,
                    )[j];
                assert(v@.take(i as int)[j] == v@[j]);
            }
        }
        let x = v[i];
        let p = find_insert_pos(&out, &x);
        out.insert(p, x);
        proof {
            let t = v@.take(i + 1);
            assert(t.drop_last() =~= v@.take(i as int));
            assert(t.last() == x);
        }
        i = i + 1;
    }
    assert(v@.take(v@.len() as int) =~= v@);
    out
}

} // verus!
