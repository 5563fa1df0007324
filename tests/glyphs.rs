use mcsdf::font::{Font, GlyphInfo, GlyphOutline};
use mcsdf::rect::Rect;
use mcsdf::shape::{Contour, Segment, Shape, ShapeSegment};
use std::sync::Arc;

fn outline(id: u32, width: u32, height: u32) -> Option<GlyphOutline<u32>> {
    Some(GlyphOutline { shape: id, width, height })
}

#[test]
fn second_request_for_a_glyph_changes_nothing() {
    let mut font: Font<u32> = Font::new(256, 256, 32, 4);
    assert!(!font.has_glyph('A'));
    font.allocate_glyph('A', outline(1, 30, 40));
    assert!(font.has_glyph('A'));
    font.allocate_glyph('A', outline(2, 30, 40));
    assert_eq!(font.get_texture_count(), 1);
    assert_eq!(
        font.get_glyph('A'),
        Some(Some(GlyphInfo { texture_id: 0, texture_view: Rect::new(0, 0, 30, 40) }))
    );
    let batches = font.get_texture_render_batches();
    assert_eq!(batches.len(), 1);
    assert_eq!(batches[0].texture_id, 0);
    assert_eq!(batches[0].allocated_shapes.len(), 1);
    assert_eq!(batches[0].allocated_shapes[0].shape, 1);
    assert!(font.get_texture_render_batches().is_empty());
}

#[test]
fn glyph_without_outline_is_recorded_as_none() {
    let mut font: Font<u32> = Font::new(64, 64, 16, 2);
    font.allocate_glyph(' ', None);
    assert_eq!(font.get_glyph(' '), Some(None));
    assert_eq!(font.get_glyph('x'), None);
    assert!(font.get_texture_render_batches().is_empty());
}

#[test]
fn full_page_opens_a_new_one() {
    let mut font: Font<u32> = Font::new(64, 64, 16, 2);
    let letters = ['a', 'b', 'c', 'd'];
    for (i, c) in letters.iter().enumerate() {
        font.allocate_glyph(*c, outline(i as u32, 32, 32));
    }
    assert_eq!(font.get_texture_count(), 1);
    font.allocate_glyph('e', outline(9, 20, 20));
    assert_eq!(font.get_texture_count(), 2);
    assert_eq!(
        font.get_glyph('e'),
        Some(Some(GlyphInfo { texture_id: 1, texture_view: Rect::new(0, 0, 20, 20) }))
    );
    let batches = font.get_texture_render_batches();
    assert_eq!(batches.len(), 2);
    assert_eq!(batches[0].texture_id, 0);
    assert_eq!(batches[0].allocated_shapes.len(), 4);
    assert_eq!(batches[1].texture_id, 1);
    assert_eq!(batches[1].allocated_shapes.len(), 1);
    assert!(Arc::ptr_eq(&batches[1].texture, &font.get_texture(1)));
    assert!(!Arc::ptr_eq(&batches[0].texture, &font.get_texture(1)));
}

#[test]
fn earlier_pages_are_not_retried() {
    let mut font: Font<u32> = Font::new(64, 64, 16, 2);
    font.allocate_glyph('a', outline(0, 60, 60));
    font.allocate_glyph('b', outline(1, 30, 30));
    assert_eq!(font.get_texture_count(), 2);
    // a small glyph that would fit the first page still goes to the current one
    font.allocate_glyph('c', outline(2, 4, 4));
    assert_eq!(font.get_glyph('c').unwrap().unwrap().texture_id, 1);
}

#[test]
fn invalidate_starts_over() {
    let mut font: Font<u32> = Font::new(64, 64, 16, 2);
    font.allocate_glyph('a', outline(0, 60, 60));
    font.allocate_glyph('b', outline(1, 30, 30));
    font.invalidate();
    assert_eq!(font.get_texture_count(), 1);
    assert!(!font.has_glyph('a'));
    assert!(font.get_texture_render_batches().is_empty());
    assert_eq!(font.get_texture_width(), 64);
    assert_eq!(font.get_font_size(), 16);
    assert_eq!(font.get_shadow_size(), 2);
}

fn masks(shape: &Shape<u8, u8>) -> Vec<u8> {
    shape
        .get_segments()
        .iter()
        .map(|s| match s {
            ShapeSegment::Line { mask, .. } => *mask,
            ShapeSegment::Curve { mask, .. } => *mask,
            ShapeSegment::End { clock_wise } => if *clock_wise { 100 } else { 200 },
        })
        .collect()
}

fn contour(n: usize, clock_wise: bool) -> Contour<u8, u8> {
    let segments = (0..n)
        .map(|i| if i % 2 == 0 { Segment::Line { line: i as u8 } } else { Segment::Curve { curve: i as u8 } })
        .collect();
    Contour { segments, clock_wise }
}

#[test]
fn channel_masks_cycle_per_contour() {
    let shape = Shape::from_contours(&vec![contour(1, false), contour(2, true), contour(3, false), contour(4, false), contour(5, true)]);
    assert_eq!(
        masks(&shape),
        vec![
            0b011, 200,
            0b110, 0b011, 100,
            0b110, 0b011, 0b101, 200,
            0b110, 0b011, 0b101, 0b011, 200,
            0b110, 0b011, 0b101, 0b110, 0b011, 100,
        ]
    );
}

#[test]
fn shape_keeps_edges_in_order() {
    let shape = Shape::from_contours(&vec![contour(3, false)]);
    let segs = shape.get_segments();
    assert_eq!(segs.len(), 4);
    assert!(matches!(segs[0], ShapeSegment::Line { line: 0, .. }));
    assert!(matches!(segs[1], ShapeSegment::Curve { curve: 1, .. }));
    assert!(matches!(segs[2], ShapeSegment::Line { line: 2, .. }));
    assert!(matches!(segs[3], ShapeSegment::End { clock_wise: false }));
    let empty = Shape::<u8, u8>::from_contours(&vec![contour(0, false)]);
    assert_eq!(masks(&empty), vec![200]);
}

use mcsdf::renderer::{renderer_step, RendererAction, RendererCommand, RendererEvent, RendererState};

#[test]
fn worker_renders_reports_and_stops() {
    let (state, action) = renderer_step(RendererState::Idle, RendererEvent::Received(RendererCommand::RenderShapes("p".to_string(), 7u32)));
    assert_eq!(state, RendererState::Busy);
    assert!(matches!(action, RendererAction::Render(ref n, 7) if n == "p"));
    let (state, action) = renderer_step(state, RendererEvent::Rendered("p".to_string(), 7u32));
    assert_eq!(state, RendererState::Idle);
    assert!(matches!(action, RendererAction::SendResult(ref n, 7) if n == "p"));
    let (state, action) = renderer_step(state, RendererEvent::<u32>::Received(RendererCommand::Exit));
    assert_eq!(state, RendererState::Stopped);
    assert!(matches!(action, RendererAction::Stop));
    let (state, action) = renderer_step(RendererState::Idle, RendererEvent::<u32>::Disconnected);
    assert_eq!(state, RendererState::Stopped);
    assert!(matches!(action, RendererAction::Fail));
}

#[test]
fn setters_drop_every_page() {
    let mut font: Font<u32> = Font::new(64, 64, 16, 2);
    font.allocate_glyph('a', outline(0, 60, 60));
    font.allocate_glyph('b', outline(1, 30, 30));
    font.set_texture_size(128, 32);
    assert_eq!(font.get_texture_count(), 1);
    assert_eq!((font.get_texture_width(), font.get_texture_height()), (128, 32));
    assert!(!font.has_glyph('b'));
    font.allocate_glyph('c', outline(2, 100, 30));
    font.set_font_size(20);
    assert_eq!(font.get_font_size(), 20);
    assert!(!font.has_glyph('c'));
    font.set_shadow_size(6);
    assert_eq!(font.get_shadow_size(), 6);
    assert!(font.get_texture_render_batches().is_empty());
    let texture = font.get_texture(0);
    let page = texture.lock().unwrap();
    assert_eq!((page.get_width(), page.get_height()), (128, 32));
}
