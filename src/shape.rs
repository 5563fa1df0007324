//! Shapes: the edges of a glyph outline as one stream, each edge tagged with
//! the colour channels it feeds, each contour closed by a marker that
//! records its winding.
//!
//! The geometry of an edge is a type parameter: `L` for a straight line,
//! `C` for a quadratic curve. This module decides only the channels and the
//! order of the stream.

use vstd::prelude::*;

verus! {

/// One edge of a closed contour.
#[derive(Clone, Copy)]
pub enum Segment<L, C> {
    Line { line: L },
    Curve { curve: C },
}

/// A closed contour: its edges in order, and whether its signed area is
/// negative.
pub struct Contour<L, C> {
    pub segments: Vec<Segment<L, C>>,
    pub clock_wise: bool,
}

/// An element of a shape's stream.
#[derive(Clone, Copy)]
pub enum ShapeSegment<L, C> {
    /// A line feeding the channels whose bits are set in `mask`.
    Line { line: L, mask: u8 },
    /// A curve feeding the channels whose bits are set in `mask`.
    Curve { curve: C, mask: u8 },
    /// Closes the contour whose edges precede it.
    End { clock_wise: bool },
}

/// The segments of a glyph, contour after contour.
pub struct Shape<L, C> {
    segments: Vec<ShapeSegment<L, C>>,
}

/// The channel mask of the edge that follows an edge with `mask`; `last`
/// tells whether it closes its contour.
pub open spec fn next_mask_spec(mask: u8, last: bool) -> u8 {
    if mask == 0b110 {
        0b011
    } else if mask == 0b011 {
        0b101
    } else if last {
        0b011
    } else {
        0b110
    }
}

/// Mask of edge `k` of a contour of `n` edges.
pub open spec fn edge_mask(n: nat, k: nat) -> u8
    decreases k,
{
    let prev = if k == 0 { 0u8 } else { edge_mask(n, (k - 1) as nat) };
    next_mask_spec(prev, k + 1 == n)
}

/// Edge `s` tagged with `mask`.
pub open spec fn tagged<L, C>(s: Segment<L, C>, mask: u8) -> ShapeSegment<L, C> {
    match s {
        Segment::Line { line } => ShapeSegment::Line { line, mask },
        Segment::Curve { curve } => ShapeSegment::Curve { curve, mask },
    }
}

/// The stream for one contour: its edges with their masks, then its end
/// marker.
pub open spec fn contour_stream<L, C>(segments: Seq<Segment<L, C>>, clock_wise: bool) -> Seq<ShapeSegment<L, C>> {
    Seq::new(segments.len(), |k: int| tagged(segments[k], edge_mask(segments.len(), k as nat))).push(
        ShapeSegment::End { clock_wise },
    )
}

/// The stream for a sequence of contours, in order.
pub open spec fn shape_stream<L, C>(contours: Seq<Contour<L, C>>) -> Seq<ShapeSegment<L, C>>
    decreases contours.len(),
{
    if contours.len() == 0 {
        Seq::empty()
    } else {
        shape_stream(contours.drop_last()) + contour_stream(
            contours.last().segments@,
            contours.last().clock_wise,
        )
    }
}

/// Exactly two of the three channels.
pub open spec fn two_channels(mask: u8) -> bool {
    mask == 0b011 || mask == 0b101 || mask == 0b110
}

/// Every edge of a contour feeds two channels; two consecutive edges never
/// feed the same pair, nor do the last edge and the first, so that every
/// corner keeps a channel of its own on each side.
pub proof fn lemma_edge_masks(n: nat)
    ensures
        forall|k: nat| k < n ==> two_channels(#[trigger] edge_mask(n, k)),
        forall|k: nat| 0 < k < n ==> #[trigger] edge_mask(n, k) != edge_mask(n, (k - 1) as nat),
        n >= 2 ==> edge_mask(n, (n - 1) as nat) != edge_mask(n, 0),
{
    assert forall|k: nat| k < n implies two_channels(#[trigger] edge_mask(n, k)) by {
        lemma_edge_mask_two(n, k);
    }
    assert forall|k: nat| 0 < k < n implies #[trigger] edge_mask(n, k) != edge_mask(n, (k - 1) as nat) by {
        lemma_edge_mask_two(n, (k - 1) as nat);
    }
    if n >= 2 {
        if n - 1 > 0 {
            lemma_edge_mask_two(n, (n - 2) as nat);
        }
    }
}

proof fn lemma_edge_mask_two(n: nat, k: nat)
    ensures
        two_channels(edge_mask(n, k)),
    decreases k,
{
    if k > 0 {
        lemma_edge_mask_two(n, (k - 1) as nat);
    }
}

fn next_mask(mask: u8, remaining_segments: usize) -> (r: u8)
    ensures
        r == next_mask_spec(mask, remaining_segments == 0),
{
    if mask == 0b110 {
        0b011
    } else if mask == 0b011 {
        0b101
    } else if remaining_segments == 0 {
        0b011
    } else {
        0b110
    }
}

impl<L, C> View for Shape<L, C> {
    type V = Seq<ShapeSegment<L, C>>;

    closed spec fn view(&self) -> Seq<ShapeSegment<L, C>> {
        self.segments@
    }
}

impl<L: Copy, C: Copy> Shape<L, C> {
    pub fn new(segments: Vec<ShapeSegment<L, C>>) -> (r: Self)
        ensures
            r@ == segments@,
    {
        Shape { segments }
    }

    pub fn get_segments(&self) -> (r: &[ShapeSegment<L, C>])
        ensures
            r@ == self@,
    {
        self.segments.as_slice()
    }

    /// The shape of the given contours: each contour's edges in order, the
    /// masks cycling over its edges, then its end marker.
    pub fn from_contours(contours: &Vec<Contour<L, C>>) -> (r: Self)
        ensures
            r@ == shape_stream(contours@),
    {
        let mut segments: Vec<ShapeSegment<L, C>> = Vec::new();
        let mut c: usize = 0;
        while c < contours.len()
            invariant
                0 <= c <= contours@.len(),
                segments@ == shape_stream(contours@.take(c as int)),
            decreases contours@.len() - c,
        {
            let contour = &contours[c];
            let n = contour.segments.len();
            let ghost start = segments@;
            let mut mask: u8 = 0;
            let mut k: usize = 0;
            while k < n
                invariant
                    0 <= k <= n,
                    n == contour.segments@.len(),
                    segments@.len() == start.len() + k,
                    segments@.subrange(0, start.len() as int) == start,
                    mask == (if k == 0 { 0u8 } else { edge_mask(n as nat, (k - 1) as nat) }),
                    forall|j: int| 0 <= j < k ==> #[trigger] segments@[start.len() + j] == tagged(
                        contour.segments@[j],
                        edge_mask(n as nat, j as nat),
                    ),
                decreases n - k,
            {
                mask = next_mask(mask, n - k - 1);
                let item = match contour.segments[k] {
                    Segment::Line { line } => ShapeSegment::Line { line, mask },
                    Segment::Curve { curve } => ShapeSegment::Curve { curve, mask },
                };
                segments.push(item);
                proof {
                    assert(segments@.subrange(0, start.len() as int) =~= start);
                }
                k = k + 1;
            }
            segments.push(ShapeSegment::End { clock_wise: contour.clock_wise });
            proof {
                let t = contours@.take(c + 1);
                assert(t.drop_last() =~= contours@.take(c as int));
                assert(t.last() == contours@[c as int]);
                let cs = contour_stream(contour.segments@, contour.clock_wise);
                assert(segments@ =~= start + cs) by {
                    assert forall|j: int| 0 <= j < segments@.len() implies segments@[j] == (start + cs)[j] by {
                        if j < start.len() {
                            assert(segments@.subrange(0, start.len() as int)[j] == start[j]);
                        } else if j < start.len() + n {
                            assert(segments@[start.len() + (j - start.len())] == segments@[j]);
                        }
                    }
                }
            }
            c = c + 1;
        }
        proof {
            assert(contours@.take(contours@.len() as int) =~= contours@);
        }
        Shape { segments }
    }
}

} // verus!
