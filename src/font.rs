//! The glyph atlas: which page each glyph was packed onto, the pages
//! themselves, and the glyphs still waiting to be rasterized.
//!
//! A glyph's outline and its size in pixels come from the caller, which
//! reads them from the font; the shape type `S` carries whatever the
//! rasterizer will need of the glyph.

use vstd::prelude::*;
use std::collections::HashMap;
use std::sync::{Arc, Mutex};
use crate::rect::Rect;
use crate::texture::{Texture, TextureView, TextureViewAllocator, allocation, fits, free_after, lemma_first_fit};

verus! {

broadcast use vstd::std_specs::hash::group_hash_axioms;

#[verifier::external_type_specification]
#[verifier::external_body]
#[verifier::reject_recursive_types(T)]
pub struct ExMutex<T: ?Sized>(Mutex<T>);

pub assume_specification<T>[ Mutex::<T>::new ](t: T) -> Mutex<T>;

/// Relies on `Arc::clone`: a second handle to the same shared page, equal
/// to the first.
#[verifier::external_body]
fn share_texture(texture: &Arc<Mutex<Texture>>) -> (r: Arc<Mutex<Texture>>)
    ensures
        r == *texture,
{
    Arc::clone(texture)
}

/// Why a font could not be made: its data is not a font the parser reads.
#[derive(Debug, PartialEq, Eq, Structural)]
pub enum FontError {
    CannotLoadFont,
}

/// Where a glyph lies: the page, and its rectangle in pixels.
#[derive(Clone, Copy, Debug, PartialEq, Eq, Structural)]
pub struct GlyphInfo {
    pub texture_id: u32,
    pub texture_view: Rect,
}

/// A glyph's outline, with the size in pixels of the box it needs: its
/// bounding box grown by the distance field's reach on every side.
pub struct GlyphOutline<S> {
    pub shape: S,
    pub width: u32,
    pub height: u32,
}

/// A shape with the view it was packed into.
pub struct AllocatedShape<S> {
    pub shape: S,
    pub texture_view: TextureView,
}

impl<S> AllocatedShape<S> {
    /// Packs a `width` x `height` box for `shape` with the allocator; none
    /// if the allocator has no room for it.
    pub fn new(shape: S, texture_allocator: &mut TextureViewAllocator, width: u32, height: u32) -> (r: Option<Self>)
        requires
            old(texture_allocator).wf(),
        ensures
            allocation(*old(texture_allocator), *final(texture_allocator), width as int, height as int, match r {
                Some(a) => Some(a.texture_view@),
                None => None,
            }),
            r matches Some(a) ==> a.shape == shape,
    {
        match texture_allocator.allocate(width, height) {
            Some(texture_view) => Some(AllocatedShape { shape, texture_view }),
            None => None,
        }
    }
}

/// The shapes of one page that wait to be rasterized, with the page.
pub struct TextureRenderBatch<S> {
    pub texture_id: u32,
    pub texture: Arc<Mutex<Texture>>,
    pub allocated_shapes: Vec<AllocatedShape<S>>,
}

struct TextureMetadata<S> {
    texture: Arc<Mutex<Texture>>,
    allocator: TextureViewAllocator,
    allocated_shapes: Vec<AllocatedShape<S>>,
}

/// Glyph pages of one font at one size.
pub struct Font<S> {
    texture_metadatas: Vec<TextureMetadata<S>>,
    free_texture_index: u32,
    texture_width: u32,
    texture_height: u32,
    font_size: u8,
    shadow_size: u8,
    glyphs: HashMap<u32, Option<GlyphInfo>>,
}

/// The key of character `c` in the glyph table.
pub open spec fn key(c: char) -> u32 {
    c as u32
}

/// The batches for pages `0..n` with their pending shapes: one for each
/// page with something pending, in page order.
pub open spec fn batches_for<S>(pending: Seq<Seq<AllocatedShape<S>>>, n: int) -> Seq<(int, Seq<AllocatedShape<S>>)>
    decreases n,
{
    if n <= 0 {
        Seq::empty()
    } else if pending[n - 1].len() > 0 {
        batches_for(pending, n - 1).push((n - 1, pending[n - 1]))
    } else {
        batches_for(pending, n - 1)
    }
}

/// Once every page's pending list is empty there is no batch to hand out:
/// asking for batches twice in a row gives nothing the second time.
pub proof fn lemma_no_pending_no_batches<S>(pending: Seq<Seq<AllocatedShape<S>>>, n: int)
    requires
        0 <= n <= pending.len(),
        forall|i: int| 0 <= i < n ==> (#[trigger] pending[i]).len() == 0,
    ensures
        batches_for(pending, n).len() == 0,
    decreases n,
{
    if n > 0 {
        lemma_no_pending_no_batches(pending, n - 1);
    }
}

/// Every pending shape is in exactly one batch: the batches hold, page
/// after page, all the shapes that were pending.
pub proof fn lemma_batches_cover<S>(pending: Seq<Seq<AllocatedShape<S>>>, n: int)
    requires
        0 <= n <= pending.len(),
    ensures
        forall|k: int| 0 <= k < batches_for(pending, n).len() ==> {
            let b = #[trigger] batches_for(pending, n)[k];
            0 <= b.0 < n && b.1 == pending[b.0] && b.1.len() > 0
        },
        forall|k1: int, k2: int| 0 <= k1 < k2 < batches_for(pending, n).len() ==> (#[trigger] batches_for(pending, n)[k1]).0 < (#[trigger] batches_for(pending, n)[k2]).0,
        forall|i: int| 0 <= i < n && (#[trigger] pending[i]).len() > 0 ==> exists|k: int| 0 <= k < batches_for(pending, n).len() && batches_for(pending, n)[k].0 == i,
    decreases n,
{
    if n > 0 {
        lemma_batches_cover(pending, n - 1);
        let prev = batches_for(pending, n - 1);
        let cur = batches_for(pending, n);
        if pending[n - 1].len() > 0 {
            assert(cur == prev.push((n - 1, pending[n - 1])));
            assert forall|i: int| 0 <= i < n && (#[trigger] pending[i]).len() > 0 implies exists|k: int| 0 <= k < cur.len() && cur[k].0 == i by {
                if i == n - 1 {
                    assert(cur[prev.len() as int].0 == i);
                } else {
                    let k = choose|k: int| 0 <= k < prev.len() && prev[k].0 == i;
                    assert(cur[k] == prev[k]);
                }
            }
            assert forall|k1: int, k2: int| 0 <= k1 < k2 < cur.len() implies (#[trigger] cur[k1]).0 < (#[trigger] cur[k2]).0 by {
                assert(cur[k1] == prev[k1]);
                if k2 < prev.len() {
                    assert(cur[k2] == prev[k2]);
                }
            }
        }
    }
}

fn new_page<S>(width: u32, height: u32) -> (r: TextureMetadata<S>)
    requires
        3 * width * height <= usize::MAX,
    ensures
        r.allocator.wf(),
        r.allocator.page_width() == width,
        r.allocator.page_height() == height,
        r.allocator.free_rects() == seq![Rect { min_x: 0, min_y: 0, max_x: width, max_y: height }],
        r.allocator.views() == Seq::<Rect>::empty(),
        r.allocated_shapes@ == Seq::<AllocatedShape<S>>::empty(),
{
    let (texture, allocator) = Texture::new(width, height);
    TextureMetadata { texture: Arc::new(Mutex::new(texture)), allocator, allocated_shapes: Vec::new() }
}

impl<S> Font<S> {
    pub closed spec fn page_count(&self) -> int {
        self.texture_metadatas@.len() as int
    }

    /// The page new glyphs go to.
    pub closed spec fn current_page(&self) -> int {
        self.free_texture_index as int
    }

    pub closed spec fn page_allocator(&self, i: int) -> TextureViewAllocator {
        self.texture_metadatas@[i].allocator
    }

    pub closed spec fn page_texture(&self, i: int) -> Arc<Mutex<Texture>> {
        self.texture_metadatas@[i].texture
    }

    /// Shapes of page `i` not yet handed out for rasterizing.
    pub closed spec fn pending(&self, i: int) -> Seq<AllocatedShape<S>> {
        self.texture_metadatas@[i].allocated_shapes@
    }

    pub open spec fn all_pending(&self) -> Seq<Seq<AllocatedShape<S>>> {
        Seq::new(self.page_count() as nat, |i: int| self.pending(i))
    }

    /// Glyph table: `None` for a glyph without outline.
    pub closed spec fn glyph_map(&self) -> Map<u32, Option<GlyphInfo>> {
        self.glyphs@
    }

    pub closed spec fn spec_texture_width(&self) -> int {
        self.texture_width as int
    }

    pub closed spec fn spec_texture_height(&self) -> int {
        self.texture_height as int
    }

    pub closed spec fn spec_font_size(&self) -> u8 {
        self.font_size
    }

    pub closed spec fn spec_shadow_size(&self) -> u8 {
        self.shadow_size
    }

    /// At least one page; the last one is current; every page has the
    /// font's page size and a sound allocator.
    pub open spec fn wf(&self) -> bool {
        &&& 1 <= self.page_count() <= u32::MAX
        &&& self.current_page() == self.page_count() - 1
        &&& 3 * self.spec_texture_width() * self.spec_texture_height() <= usize::MAX
        &&& forall|i: int| 0 <= i < self.page_count() ==> {
            &&& (#[trigger] self.page_allocator(i)).wf()
            &&& self.page_allocator(i).page_width() == self.spec_texture_width()
            &&& self.page_allocator(i).page_height() == self.spec_texture_height()
        }
    }

    /// A font with one empty page and no glyphs.
    pub fn new(texture_width: u32, texture_height: u32, font_size: u8, shadow_size: u8) -> (r: Self)
        requires
            3 * texture_width * texture_height <= usize::MAX,
        ensures
            r.wf(),
            r.page_count() == 1,
            r.page_allocator(0).free_rects() == seq![Rect { min_x: 0, min_y: 0, max_x: texture_width, max_y: texture_height }],
            r.page_allocator(0).views() == Seq::<Rect>::empty(),
            r.pending(0) == Seq::<AllocatedShape<S>>::empty(),
            r.glyph_map() == Map::<u32, Option<GlyphInfo>>::empty(),
            r.spec_texture_width() == texture_width,
            r.spec_texture_height() == texture_height,
            r.spec_font_size() == font_size,
            r.spec_shadow_size() == shadow_size,
    {
        let texture_metadatas = vec![new_page(texture_width, texture_height)];
        Font {
            texture_metadatas,
            free_texture_index: 0,
            texture_width,
            texture_height,
            font_size,
            shadow_size,
            glyphs: HashMap::new(),
        }
    }

    /// Drops every page and glyph, and starts again from one empty page.
    pub fn invalidate(&mut self)
        requires
            3 * old(self).spec_texture_width() * old(self).spec_texture_height() <= usize::MAX,
        ensures
            final(self).wf(),
            final(self).page_count() == 1,
            final(self).page_allocator(0).free_rects() == seq![Rect { min_x: 0, min_y: 0, max_x: old(self).spec_texture_width() as u32, max_y: old(self).spec_texture_height() as u32 }],
            final(self).page_allocator(0).views() == Seq::<Rect>::empty(),
            final(self).pending(0) == Seq::<AllocatedShape<S>>::empty(),
            final(self).glyph_map() == Map::<u32, Option<GlyphInfo>>::empty(),
            final(self).spec_texture_width() == old(self).spec_texture_width(),
            final(self).spec_texture_height() == old(self).spec_texture_height(),
            final(self).spec_font_size() == old(self).spec_font_size(),
            final(self).spec_shadow_size() == old(self).spec_shadow_size(),
    {
        self.texture_metadatas = vec![new_page(self.texture_width, self.texture_height)];
        self.free_texture_index = 0;
        self.glyphs = HashMap::new();
    }

    /// Changes the page size; every page and glyph is dropped.
    pub fn set_texture_size(&mut self, width: u32, height: u32)
        requires
            3 * width * height <= usize::MAX,
        ensures
            final(self).wf(),
            final(self).page_count() == 1,
            final(self).page_allocator(0).free_rects() == seq![Rect { min_x: 0, min_y: 0, max_x: width, max_y: height }],
            final(self).page_allocator(0).views() == Seq::<Rect>::empty(),
            final(self).pending(0) == Seq::<AllocatedShape<S>>::empty(),
            final(self).glyph_map() == Map::<u32, Option<GlyphInfo>>::empty(),
            final(self).spec_texture_width() == width,
            final(self).spec_texture_height() == height,
            final(self).spec_font_size() == old(self).spec_font_size(),
            final(self).spec_shadow_size() == old(self).spec_shadow_size(),
    {
        self.texture_width = width;
        self.texture_height = height;
        self.invalidate();
    }

    /// Changes the distance field's reach; every page and glyph is dropped.
    pub fn set_shadow_size(&mut self, shadow_size: u8)
        requires
            3 * old(self).spec_texture_width() * old(self).spec_texture_height() <= usize::MAX,
        ensures
            final(self).wf(),
            final(self).page_count() == 1,
            final(self).pending(0) == Seq::<AllocatedShape<S>>::empty(),
            final(self).page_allocator(0).views() == Seq::<Rect>::empty(),
            final(self).glyph_map() == Map::<u32, Option<GlyphInfo>>::empty(),
            final(self).spec_texture_width() == old(self).spec_texture_width(),
            final(self).spec_texture_height() == old(self).spec_texture_height(),
            final(self).spec_font_size() == old(self).spec_font_size(),
            final(self).spec_shadow_size() == shadow_size,
    {
        self.shadow_size = shadow_size;
        self.invalidate();
    }

    /// Changes the size glyphs are drawn at; every page and glyph is
    /// dropped.
    pub fn set_font_size(&mut self, font_size: u8)
        requires
            3 * old(self).spec_texture_width() * old(self).spec_texture_height() <= usize::MAX,
        ensures
            final(self).wf(),
            final(self).page_count() == 1,
            final(self).pending(0) == Seq::<AllocatedShape<S>>::empty(),
            final(self).page_allocator(0).views() == Seq::<Rect>::empty(),
            final(self).glyph_map() == Map::<u32, Option<GlyphInfo>>::empty(),
            final(self).spec_texture_width() == old(self).spec_texture_width(),
            final(self).spec_texture_height() == old(self).spec_texture_height(),
            final(self).spec_font_size() == font_size,
            final(self).spec_shadow_size() == old(self).spec_shadow_size(),
    {
        self.font_size = font_size;
        self.invalidate();
    }

    /// Whether `c` has been through `allocate_glyph`.
    pub fn has_glyph(&self, c: char) -> (r: bool)
        ensures
            r == self.glyph_map().contains_key(key(c)),
    {
        self.glyphs.contains_key(&(c as u32))
    }

    /// What the glyph table holds for `c`.
    pub fn get_glyph(&self, c: char) -> (r: Option<Option<GlyphInfo>>)
        ensures
            r.is_some() == self.glyph_map().contains_key(key(c)),
            r matches Some(g) ==> g == self.glyph_map()[key(c)],
    {
        match self.glyphs.get(&(c as u32)) {
            Some(g) => Some(*g),
            None => None,
        }
    }

    /// Packs the glyph `c` unless it is in the table already. A glyph
    /// without outline is recorded as such. Otherwise its box goes on the
    /// current page if that has room, else on a new page that becomes
    /// current; the glyph's place is recorded and its shape waits there to
    /// be rasterized.
    pub fn allocate_glyph(&mut self, c: char, outline: Option<GlyphOutline<S>>)
        requires
            old(self).wf(),
            old(self).page_count() < u32::MAX,
            outline matches Some(o) ==> 0 < o.width <= old(self).spec_texture_width() && 0 < o.height <= old(self).spec_texture_height(),
        ensures
            final(self).wf(),
            final(self).spec_texture_width() == old(self).spec_texture_width(),
            final(self).spec_texture_height() == old(self).spec_texture_height(),
            final(self).spec_font_size() == old(self).spec_font_size(),
            final(self).spec_shadow_size() == old(self).spec_shadow_size(),
            old(self).glyph_map().contains_key(key(c)) ==> final(self).glyph_map() == old(self).glyph_map()
                && final(self).page_count() == old(self).page_count()
                && forall|i: int| 0 <= i < old(self).page_count() ==> #[trigger] final(self).page_allocator(i) == old(self).page_allocator(i)
                    && final(self).pending(i) == old(self).pending(i) && final(self).page_texture(i) == old(self).page_texture(i),
            !old(self).glyph_map().contains_key(key(c)) && outline.is_none() ==> final(self).glyph_map() == old(self).glyph_map().insert(key(c), None)
                && final(self).page_count() == old(self).page_count()
                && forall|i: int| 0 <= i < old(self).page_count() ==> #[trigger] final(self).page_allocator(i) == old(self).page_allocator(i)
                    && final(self).pending(i) == old(self).pending(i) && final(self).page_texture(i) == old(self).page_texture(i),
            !old(self).glyph_map().contains_key(key(c)) && outline.is_some() ==> {
                let o = outline.unwrap();
                let cur = old(self).current_page();
                let free = old(self).page_allocator(cur).free_rects();
                let fits_current = exists|i: int| 0 <= i < free.len() && fits(#[trigger] free[i], o.width as int, o.height as int);
                let page = final(self).current_page();
                let view = final(self).pending(page).last().texture_view@;
                &&& final(self).glyph_map() == old(self).glyph_map().insert(key(c), Some(GlyphInfo { texture_id: page as u32, texture_view: view }))
                &&& final(self).pending(page).len() >= 1
                &&& final(self).pending(page).last().shape == o.shape
                &&& fits_current ==> {
                    &&& page == cur
                    &&& final(self).page_count() == old(self).page_count()
                    &&& allocation(old(self).page_allocator(cur), final(self).page_allocator(cur), o.width as int, o.height as int, Some(view))
                    &&& final(self).pending(page) == old(self).pending(page).push(final(self).pending(page).last())
                }
                &&& !fits_current ==> {
                    &&& page == old(self).page_count()
                    &&& final(self).page_count() == old(self).page_count() + 1
                    &&& view == Rect { min_x: 0, min_y: 0, max_x: o.width, max_y: o.height }
                    &&& final(self).page_allocator(page).views() == seq![view]
                    &&& final(self).page_allocator(page).free_rects() == free_after(
                        seq![Rect { min_x: 0, min_y: 0, max_x: old(self).spec_texture_width() as u32, max_y: old(self).spec_texture_height() as u32 }],
                        0, o.width as int, o.height as int)
                    &&& final(self).pending(page).len() == 1
                }
                &&& forall|i: int| 0 <= i < old(self).page_count() && i != page ==> #[trigger] final(self).page_allocator(i) == old(self).page_allocator(i)
                    && final(self).pending(i) == old(self).pending(i) && final(self).page_texture(i) == old(self).page_texture(i)
            },
    {
        if self.glyphs.contains_key(&(c as u32)) {
            return;
        }
        let o = match outline {
            Some(o) => o,
            None => {
                self.glyphs.insert(c as u32, None);
                proof {
                    assert forall|i: int| 0 <= i < self.page_count() implies #[trigger] self.page_allocator(i) == old(self).page_allocator(i) by {
                        assert(old(self).page_allocator(i).wf());
                    }
                }
                return;
            }
        };
        let cur = self.free_texture_index as usize;
        let ghost old_alloc = self.texture_metadatas@[cur as int].allocator;
        let ghost old_metas = self.texture_metadatas@;
        let width = o.width;
        let height = o.height;
        proof {
            assert(self.page_allocator(cur as int).wf());
        }
        let shape = o.shape;
        let (shape, view) = match self.texture_metadatas[cur].allocator.allocate(width, height) {
            Some(view) => (shape, view),
            None => {
                let mut page = new_page(self.texture_width, self.texture_height);
                let ghost fresh = page.allocator;
                proof {
                    assert(fits(fresh.free_rects()[0], width as int, height as int));
                }
                let view = match page.allocator.allocate(width, height) {
                    Some(view) => view,
                    None => {
                        proof {
                            assert(false);
                        }
                        return;
                    }
                };
                proof {
                    lemma_first_fit(fresh.free_rects(), width as int, height as int, 0);
                }
                self.texture_metadatas.push(page);
                self.free_texture_index = self.free_texture_index + 1;
                (shape, view)
            }
        };
        let page_index = self.free_texture_index;
        let texture_view = view.get_view();
        let p = page_index as usize;
        self.texture_metadatas[p].allocated_shapes.push(AllocatedShape { shape, texture_view: view });
        self.glyphs.insert(c as u32, Some(GlyphInfo { texture_id: page_index, texture_view }));
        proof {
            assert(self.texture_metadatas@[p as int].allocated_shapes@.last().texture_view@ == texture_view);
            assert forall|i: int| 0 <= i < old(self).page_count() && i != p implies #[trigger] self.page_allocator(i) == old(self).page_allocator(i) by {
                assert(old(self).page_allocator(i).wf());
                assert(self.texture_metadatas@[i] == old_metas[i]);
            }
            assert forall|i: int| 0 <= i < self.page_count() implies (#[trigger] self.page_allocator(i)).wf()
                && self.page_allocator(i).page_width() == self.spec_texture_width()
                && self.page_allocator(i).page_height() == self.spec_texture_height() by {
                if i != p {
                    assert(old(self).page_allocator(i).wf());
                }
            }
        }
    }

    /// Hands out, page by page, every shape waiting to be rasterized, with
    /// a handle to its page; afterwards nothing waits.
    pub fn get_texture_render_batches(&mut self) -> (r: Vec<TextureRenderBatch<S>>)
        requires
            old(self).wf(),
        ensures
            final(self).wf(),
            final(self).page_count() == old(self).page_count(),
            final(self).current_page() == old(self).current_page(),
            final(self).glyph_map() == old(self).glyph_map(),
            final(self).spec_texture_width() == old(self).spec_texture_width(),
            final(self).spec_texture_height() == old(self).spec_texture_height(),
            final(self).spec_font_size() == old(self).spec_font_size(),
            final(self).spec_shadow_size() == old(self).spec_shadow_size(),
            forall|i: int| 0 <= i < old(self).page_count() ==> #[trigger] final(self).page_allocator(i) == old(self).page_allocator(i)
                && final(self).page_texture(i) == old(self).page_texture(i)
                && final(self).pending(i) == Seq::<AllocatedShape<S>>::empty(),
            r@.len() == batches_for(old(self).all_pending(), old(self).page_count()).len(),
            forall|k: int| 0 <= k < r@.len() ==> {
                let b = #[trigger] batches_for(old(self).all_pending(), old(self).page_count())[k];
                &&& r@[k].texture_id == b.0
                &&& r@[k].allocated_shapes@ == b.1
                &&& r@[k].texture == old(self).page_texture(b.0)
            },
    {
        let ghost pend = self.all_pending();
        let ghost old_metas = self.texture_metadatas@;
        let ghost old_font = *self;
        let mut batches: Vec<TextureRenderBatch<S>> = Vec::new();
        let mut i: usize = 0;
        while i < self.texture_metadatas.len()
            invariant
                0 <= i <= self.texture_metadatas@.len(),
                self.texture_metadatas@.len() == old_metas.len(),
                self.texture_metadatas@.len() <= u32::MAX,
                self.free_texture_index == old_font.free_texture_index,
                self.texture_width == old_font.texture_width,
                self.texture_height == old_font.texture_height,
                self.font_size == old_font.font_size,
                self.shadow_size == old_font.shadow_size,
                self.glyphs == old_font.glyphs,
                old_font.wf(),
                old_metas == old_font.texture_metadatas@,
                pend.len() == old_metas.len(),
                forall|j: int| 0 <= j < old_metas.len() ==> #[trigger] pend[j] == old_metas[j].allocated_shapes@,
                forall|j: int| 0 <= j < old_metas.len() ==> {
                    &&& (#[trigger] self.texture_metadatas@[j]).allocator == old_metas[j].allocator
                    &&& self.texture_metadatas@[j].texture == old_metas[j].texture
                    &&& j < i ==> self.texture_metadatas@[j].allocated_shapes@ == Seq::<AllocatedShape<S>>::empty()
                    &&& j >= i ==> self.texture_metadatas@[j].allocated_shapes@ == old_metas[j].allocated_shapes@
                },
                batches@.len() == batches_for(pend, i as int).len(),
                forall|k: int| 0 <= k < batches@.len() ==> {
                    let b = #[trigger] batches_for(pend, i as int)[k];
                    &&& batches@[k].texture_id == b.0
                    &&& batches@[k].allocated_shapes@ == b.1
                    &&& batches@[k].texture == old_metas[b.0].texture
                },
            decreases old_metas.len() - i,
        {
            if self.texture_metadatas[i].allocated_shapes.len() > 0 {
                let mut allocated_shapes: Vec<AllocatedShape<S>> = Vec::new();
                std::mem::swap(&mut self.texture_metadatas[i].allocated_shapes, &mut allocated_shapes);
                let texture = share_texture(&self.texture_metadatas[i].texture);
                batches.push(TextureRenderBatch { texture_id: i as u32, texture, allocated_shapes });
            }
            i = i + 1;
        }
        proof {
            assert forall|i: int| 0 <= i < self.page_count() implies #[trigger] self.page_allocator(i) == old(self).page_allocator(i) by {
                assert(old(self).page_allocator(i).wf());
                assert(self.texture_metadatas@[i].allocator == old_metas[i].allocator);
            }
        }
        batches
    }

    /// A handle to page `texture_id`.
    pub fn get_texture(&self, texture_id: u32) -> (r: Arc<Mutex<Texture>>)
        requires
            self.wf(),
            texture_id < self.page_count(),
        ensures
            r == self.page_texture(texture_id as int),
    {
        share_texture(&self.texture_metadatas[texture_id as usize].texture)
    }

    /// Number of pages so far.
    pub fn get_texture_count(&self) -> (r: u32)
        requires
            self.wf(),
        ensures
            r == self.page_count(),
    {
        self.texture_metadatas.len() as u32
    }

    pub fn get_texture_width(&self) -> (r: u32)
        ensures
            r == self.spec_texture_width(),
    {
        self.texture_width
    }

    pub fn get_texture_height(&self) -> (r: u32)
        ensures
            r == self.spec_texture_height(),
    {
        self.texture_height
    }

    pub fn get_font_size(&self) -> (r: u8)
        ensures
            r == self.spec_font_size(),
    {
        self.font_size
    }

    pub fn get_shadow_size(&self) -> (r: u8)
        ensures
            r == self.spec_shadow_size(),
    {
        self.shadow_size
    }
}

} // verus!
