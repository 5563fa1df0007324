//! Clash correction: where two neighbouring pixels disagree on which of
//! their channels are high in a way that the median of three channels would
//! render as a seam, the pixel is flattened to its median.

use vstd::prelude::*;
use crate::math::{median, median_of, min, max, min3, max3};
use crate::texture::{PixelView, Texture, TextureView, describes, pixel_of, written_by};

verus! {

/// Smallest channel.
pub open spec fn low(p: [u8; 3]) -> int {
    min3(p[0] as int, p[1] as int, p[2] as int)
}

/// Largest channel.
pub open spec fn high(p: [u8; 3]) -> int {
    max3(p[0] as int, p[1] as int, p[2] as int)
}

/// Half the pixel's own channel range, plus one.
pub open spec fn split_threshold(p: [u8; 3]) -> int {
    (high(p) - low(p)) / 2 + 1
}

/// Channel `i` lies in the upper part of the pixel's own range.
pub open spec fn high_bit(p: [u8; 3], i: int) -> bool {
    p[i] - low(p) >= split_threshold(p)
}

/// Some channels are high and some are not.
pub open spec fn mixed(p: [u8; 3]) -> bool {
    !(high_bit(p, 0) == high_bit(p, 1) && high_bit(p, 1) == high_bit(p, 2))
}

pub open spec fn bit_differs(p1: [u8; 3], p2: [u8; 3], i: int) -> bool {
    high_bit(p1, i) != high_bit(p2, i)
}

/// Number of channels whose high bit differs between the two pixels.
pub open spec fn differing_count(p1: [u8; 3], p2: [u8; 3]) -> int {
    (if bit_differs(p1, p2, 0) { 1int } else { 0int }) + (if bit_differs(p1, p2, 1) { 1int } else { 0int }) + (
    if bit_differs(p1, p2, 2) { 1int } else { 0int })
}

pub open spec fn abs_diff(a: u8, b: u8) -> int {
    if a >= b { a - b } else { b - a }
}

/// Both pixels are mixed, exactly two channels change sides between them,
/// and on each of those the values are at least `threshold` apart.
pub open spec fn pair_clashes(threshold: int, p1: [u8; 3], p2: [u8; 3]) -> bool {
    &&& mixed(p1)
    &&& mixed(p2)
    &&& differing_count(p1, p2) == 2
    &&& forall|i: int| 0 <= i < 3 && bit_differs(p1, p2, i) ==> abs_diff(p1[i], p2[i]) >= threshold
}

/// The pixel lies on the outer border of its view.
pub open spec fn on_border(pv: PixelView) -> bool {
    pv.x == 0 || pv.y == 0 || pv.x + 1 == pv.width || pv.y + 1 == pv.height
}

/// The pixel is on the border, or clashes with one of its earlier
/// neighbours.
pub open spec fn pixel_clashes(threshold: int, pv: PixelView, p: [u8; 3]) -> bool {
    on_border(pv) || pair_clashes(threshold, pv.top_pixel, p) || pair_clashes(threshold, pv.left_pixel, p)
        || pair_clashes(threshold, pv.top_left_pixel, p) || pair_clashes(threshold, pv.top_right_pixel, p)
}

/// A channel value of zero is stored as one, so that a written pixel never
/// reads as never written.
pub open spec fn lift(c: int) -> int {
    if c == 0 { 1 } else { c }
}

/// The bytes stored for a pixel that came out as `raw`.
pub open spec fn corrected(threshold: int, pv: PixelView, raw: [u8; 3]) -> Seq<u8> {
    let m = median_of(raw[0] as int, raw[1] as int, raw[2] as int);
    if pixel_clashes(threshold, pv, raw) {
        seq![lift(m) as u8, lift(m) as u8, lift(m) as u8]
    } else {
        seq![lift(raw[0] as int) as u8, lift(raw[1] as int) as u8, lift(raw[2] as int) as u8]
    }
}

/// The bits of the three channels, bit `i` for channel `i`.
fn high_bits(p: [u8; 3]) -> (r: [bool; 3])
    ensures
        r[0] == high_bit(p, 0),
        r[1] == high_bit(p, 1),
        r[2] == high_bit(p, 2),
{
    let lo = min(p);
    let hi = max(p);
    let t = (hi - lo) / 2 + 1;
    [p[0] - lo >= t, p[1] - lo >= t, p[2] - lo >= t]
}

fn channel_distance(a: u8, b: u8) -> (r: i16)
    ensures
        r == abs_diff(a, b),
{
    if a >= b { (a - b) as i16 } else { (b - a) as i16 }
}

/// Whether two neighbouring pixels clash.
pub fn is_pixel_pair_clashing(clashing_threshold: i16, p1: [u8; 3], p2: [u8; 3]) -> (r: bool)
    ensures
        r == pair_clashes(clashing_threshold as int, p1, p2),
{
    let b1 = high_bits(p1);
    let b2 = high_bits(p2);
    if (b1[0] == b1[1] && b1[1] == b1[2]) || (b2[0] == b2[1] && b2[1] == b2[2]) {
        return false;
    }
    let d0 = b1[0] != b2[0];
    let d1 = b1[1] != b2[1];
    let d2 = b1[2] != b2[2];
    let count: u8 = (if d0 { 1u8 } else { 0u8 }) + (if d1 { 1u8 } else { 0u8 }) + (if d2 { 1u8 } else { 0u8 });
    let far0 = !d0 || channel_distance(p1[0], p2[0]) >= clashing_threshold;
    let far1 = !d1 || channel_distance(p1[1], p2[1]) >= clashing_threshold;
    let far2 = !d2 || channel_distance(p1[2], p2[2]) >= clashing_threshold;
    let r = count == 2 && far0 && far1 && far2;
    proof {
        let t = clashing_threshold as int;
        if far0 && far1 && far2 {
            assert forall|i: int| 0 <= i < 3 && bit_differs(p1, p2, i) implies abs_diff(p1[i], p2[i]) >= t by {
                if i == 0 {} else if i == 1 {} else {}
            }
        }
    }
    r
}

/// Whether the pixel must be flattened: it lies on the border of its view,
/// or it clashes with the pixel above, to the left, above-left or
/// above-right of it.
pub fn is_pixel_clashing(clashing_threshold: i16, pixel_view: &PixelView, current_pixel: [u8; 3]) -> (r: bool)
    ensures
        r == pixel_clashes(clashing_threshold as int, *pixel_view, current_pixel),
{
    if pixel_view.x == 0 || pixel_view.y == 0 || pixel_view.x as u64 + 1 == pixel_view.width as u64
        || pixel_view.y as u64 + 1 == pixel_view.height as u64 {
        return true;
    }
    is_pixel_pair_clashing(clashing_threshold, pixel_view.top_pixel, current_pixel)
        || is_pixel_pair_clashing(clashing_threshold, pixel_view.left_pixel, current_pixel)
        || is_pixel_pair_clashing(clashing_threshold, pixel_view.top_left_pixel, current_pixel)
        || is_pixel_pair_clashing(clashing_threshold, pixel_view.top_right_pixel, current_pixel)
}

/// The value stored for a pixel whose channels came out as `raw`: its
/// median in every channel where it clashes, `raw` otherwise, with zero
/// channels stored as one.
pub fn correct_pixel(clashing_threshold: i16, pixel_view: &PixelView, raw: [u8; 3]) -> (r: [u8; 3])
    ensures
        pixel_clashes(clashing_threshold as int, *pixel_view, raw) ==> forall|i: int|
            0 <= i < 3 ==> r[i] == lift(median_of(raw[0] as int, raw[1] as int, raw[2] as int)),
        !pixel_clashes(clashing_threshold as int, *pixel_view, raw) ==> forall|i: int|
            0 <= i < 3 ==> r[i] == lift(raw[i] as int),
        r@ == corrected(clashing_threshold as int, *pixel_view, raw),
{
    let p = if is_pixel_clashing(clashing_threshold, pixel_view, raw) {
        let m = median(raw);
        [m, m, m]
    } else {
        raw
    };
    let r = [
        if p[0] == 0 { 1 } else { p[0] },
        if p[1] == 0 { 1 } else { p[1] },
        if p[2] == 0 { 1 } else { p[2] },
    ];
    proof {
        assert(r@ =~= corrected(clashing_threshold as int, *pixel_view, raw));
    }
    r
}

/// Stores the field of one shape into its view: `raw` holds the view's
/// pixels row by row as they came out of the distance computation; each is
/// stored clash-corrected against the neighbours already stored, and with
/// no zero channel. Pixels outside the view keep their bytes.
pub fn store_view(texture: &mut Texture, view: &TextureView, clashing_threshold: i16, raw: &Vec<[u8; 3]>)
    requires
        old(texture).wf(),
        view@.inside(old(texture).spec_width(), old(texture).spec_height()),
        raw@.len() == view@.spec_width() * view@.spec_height(),
    ensures
        final(texture).wf(),
        final(texture).spec_width() == old(texture).spec_width(),
        final(texture).spec_height() == old(texture).spec_height(),
        forall|x: int, y: int| #[trigger] view@.contains_pixel(x, y) ==> exists|pv: PixelView|
            describes(pv, final(texture).pixels(), final(texture).spec_width(), view@, x, y)
                && pixel_of(final(texture).pixels(), final(texture).spec_width(), x, y) == corrected(
                clashing_threshold as int,
                pv,
                raw@[(y - view@.min_y) * view@.spec_width() + (x - view@.min_x)],
            ),
        forall|x: int, y: int, c: int| view@.contains_pixel(x, y) && 0 <= c < 3
            ==> #[trigger] pixel_of(final(texture).pixels(), final(texture).spec_width(), x, y)[c] != 0,
        forall|x: int, y: int|
            0 <= x < old(texture).spec_width() && 0 <= y < old(texture).spec_height() && !view@.contains_pixel(x, y)
                ==> #[trigger] pixel_of(final(texture).pixels(), old(texture).spec_width(), x, y)
                == pixel_of(old(texture).pixels(), old(texture).spec_width(), x, y),
{
    let rect = view.get_view();
    let w = rect.width();
    let h = rect.height();
    let t = clashing_threshold;
    let n = raw.len();
    let store = |pv: PixelView| -> (r: [u8; 3])
        ensures
            pv.x < w && pv.y < h ==> r@ == corrected(t as int, pv, raw@[pv.y * w + pv.x]),
            r[0] != 0 && r[1] != 0 && r[2] != 0,
    {
        if pv.x < w && pv.y < h {
            proof {
                assert(pv.y * w + pv.x < w * h) by (nonlinear_arith)
                    requires pv.x < w, pv.y < h;
            }
            let i = pv.y as usize * w as usize + pv.x as usize;
            correct_pixel(t, &pv, raw[i])
        } else {
            [1, 1, 1]
        }
    };
    texture.modify_view(view, store);
    proof {
        let d = texture.pixels();
        let tw = texture.spec_width();
        let v = view@;
        assert forall|x: int, y: int| #[trigger] v.contains_pixel(x, y) implies exists|pv: PixelView|
            describes(pv, d, tw, v, x, y) && pixel_of(d, tw, x, y) == corrected(
                t as int,
                pv,
                raw@[(y - v.min_y) * v.spec_width() + (x - v.min_x)],
            ) by {
            assert(written_by(store, d, tw, v, x, y));
            let (pv, out) = choose|pv: PixelView, out: [u8; 3]|
                describes(pv, d, tw, v, x, y) && out@ == pixel_of(d, tw, x, y) && #[trigger] store.ensures((pv,), out);
            assert(pv.x < w && pv.y < h);
        }
        assert forall|x: int, y: int, c: int| v.contains_pixel(x, y) && 0 <= c < 3
            implies #[trigger] pixel_of(d, tw, x, y)[c] != 0 by {
            assert(written_by(store, d, tw, v, x, y));
            let (pv, out) = choose|pv: PixelView, out: [u8; 3]|
                describes(pv, d, tw, v, x, y) && out@ == pixel_of(d, tw, x, y) && #[trigger] store.ensures((pv,), out);
            assert(out@[c] == out[c]);
        }
    }
}

} // verus!
