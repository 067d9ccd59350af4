use ndless_text_viewer::glyph::GlyphCache;
use ndless_text_viewer::render::{
    blit_glyph_ops, glyph_color, render_line_ops, render_window_ops, shift_fb_rects,
    visible_range, PixelOp, RenderHalt, Rgb, ScreenRect,
};
use ndless_text_viewer::types::{CharData, Direction, DisplayLine};

fn glyph_2x2() -> CharData {
    CharData { bm_buffer: vec![0, 10, 20, 0], bm_left: 1, bm_top: 3, bm_w: 2, bm_h: 2 }
}

fn glyph_1x1(alpha: u8) -> CharData {
    CharData { bm_buffer: vec![alpha], bm_left: 0, bm_top: 1, bm_w: 1, bm_h: 1 }
}

#[test]
fn cache_starts_empty_and_remembers() {
    let mut cache = GlyphCache::new();
    assert_eq!(cache.len(), 0);
    assert!(!cache.contains(65));
    assert!(cache.get(65).is_none());
    cache.insert(65, glyph_1x1(255));
    assert!(cache.contains(65));
    assert_eq!(cache.len(), 1);
    let entry = cache.get(65).unwrap();
    assert_eq!(entry.bm_buffer, vec![255]);
}

#[test]
fn cache_entry_identical_on_second_request() {
    let mut cache = GlyphCache::new();
    cache.insert(65, glyph_2x2());
    let first: Vec<u8> = cache.get(65).unwrap().bm_buffer.clone();
    cache.insert(66, glyph_1x1(7));
    let second: Vec<u8> = cache.get(65).unwrap().bm_buffer.clone();
    assert_eq!(first, second);
    assert_eq!(second, vec![0, 10, 20, 0]);
    assert_eq!(cache.len(), 2);
}

#[test]
fn colors_follow_alpha() {
    assert_eq!(glyph_color(200, false), Rgb { r: 200, g: 200, b: 200 });
    assert_eq!(glyph_color(200, true), Rgb { r: 50, g: 200, b: 40 });
    assert_eq!(glyph_color(0, true), Rgb { r: 0, g: 0, b: 0 });
}

#[test]
fn blit_skips_zero_alpha_and_applies_bearing() {
    let g = glyph_2x2();
    let ops = blit_glyph_ops(&g, false, 10, 5);
    assert_eq!(
        ops,
        vec![
            PixelOp { x: 11, y: 3, color: Rgb { r: 20, g: 20, b: 20 } },
            PixelOp { x: 12, y: 2, color: Rgb { r: 10, g: 10, b: 10 } },
        ]
    );
}

#[test]
fn blit_highlight_tints_green() {
    let g = glyph_1x1(20);
    let ops = blit_glyph_ops(&g, true, 0, 1);
    assert_eq!(ops, vec![PixelOp { x: 0, y: 0, color: Rgb { r: 5, g: 20, b: 4 } }]);
}

#[test]
fn render_line_reports_missing_glyph() {
    let cache = GlyphCache::new();
    let line = DisplayLine { text: "A".to_string(), highlighted: false };
    let r = render_line_ops(&line, &cache, 6, 11);
    assert_eq!(r, Err(RenderHalt::MissingGlyph('A')));
}

#[test]
fn render_line_composites_cached_glyphs() {
    let mut cache = GlyphCache::new();
    cache.insert('A' as u32, glyph_1x1(255));
    cache.insert('B' as u32, glyph_1x1(9));
    let line = DisplayLine { text: "AB".to_string(), highlighted: false };
    let ops = render_line_ops(&line, &cache, 6, 11).unwrap();
    assert_eq!(
        ops,
        vec![
            PixelOp { x: 0, y: 10, color: Rgb { r: 255, g: 255, b: 255 } },
            PixelOp { x: 6, y: 10, color: Rgb { r: 9, g: 9, b: 9 } },
        ]
    );
}

#[test]
fn render_line_reports_glyph_that_misses_its_cell() {
    let mut cache = GlyphCache::new();
    let tall = CharData { bm_buffer: vec![1], bm_left: 0, bm_top: 50, bm_w: 1, bm_h: 1 };
    cache.insert('A' as u32, tall);
    let line = DisplayLine { text: "A".to_string(), highlighted: false };
    let r = render_line_ops(&line, &cache, 6, 11);
    assert_eq!(r, Err(RenderHalt::Misfit('A')));
}

#[test]
fn combining_mark_overlays_its_base() {
    let mut cache = GlyphCache::new();
    cache.insert('e' as u32, glyph_1x1(200));
    cache.insert(0x301, glyph_1x1(30));
    cache.insert('a' as u32, glyph_1x1(80));
    let line = DisplayLine { text: "ae\u{301}".to_string(), highlighted: false };
    let ops = render_line_ops(&line, &cache, 6, 11).unwrap();
    assert_eq!(
        ops,
        vec![
            PixelOp { x: 0, y: 10, color: Rgb { r: 80, g: 80, b: 80 } },
            PixelOp { x: 6, y: 10, color: Rgb { r: 200, g: 200, b: 200 } },
            PixelOp { x: 6, y: 10, color: Rgb { r: 30, g: 30, b: 30 } },
        ]
    );
}

#[test]
fn negative_bearing_shifts_origin_left_and_down() {
    let g = CharData { bm_buffer: vec![50], bm_left: -1, bm_top: -2, bm_w: 1, bm_h: 1 };
    let ops = blit_glyph_ops(&g, false, 4, 7);
    assert_eq!(ops, vec![PixelOp { x: 3, y: 9, color: Rgb { r: 50, g: 50, b: 50 } }]);
}

#[test]
fn negative_left_bearing_at_left_edge_is_a_misfit() {
    let mut cache = GlyphCache::new();
    let g = CharData { bm_buffer: vec![50], bm_left: -1, bm_top: 1, bm_w: 1, bm_h: 1 };
    cache.insert('A' as u32, g);
    let line = DisplayLine { text: "A".to_string(), highlighted: false };
    let r = render_line_ops(&line, &cache, 6, 11);
    assert_eq!(r, Err(RenderHalt::Misfit('A')));
}

#[test]
fn render_window_walks_rows() {
    let mut cache = GlyphCache::new();
    cache.insert('a' as u32, glyph_1x1(100));
    let lines = vec![
        DisplayLine { text: "a".to_string(), highlighted: false },
        DisplayLine { text: "a".to_string(), highlighted: false },
    ];
    let ops = render_window_ops(&lines, &cache, 6, 11, 0, 2, 0).unwrap();
    assert_eq!(
        ops,
        vec![
            PixelOp { x: 0, y: 10, color: Rgb { r: 100, g: 100, b: 100 } },
            PixelOp { x: 0, y: 21, color: Rgb { r: 100, g: 100, b: 100 } },
        ]
    );
}

#[test]
fn render_window_stops_at_missing_glyph() {
    let mut cache = GlyphCache::new();
    cache.insert('a' as u32, glyph_1x1(100));
    let lines = vec![
        DisplayLine { text: "a".to_string(), highlighted: false },
        DisplayLine { text: "z".to_string(), highlighted: false },
    ];
    let r = render_window_ops(&lines, &cache, 6, 11, 0, 2, 0);
    assert_eq!(r, Err(RenderHalt::MissingGlyph('z')));
}

#[test]
fn visible_range_full_repaint_draws_visible_window() {
    assert_eq!(visible_range(30, 0, 21, 11, None), (0, 21, 11));
    assert_eq!(visible_range(5, 0, 21, 11, None), (0, 5, 11));
    assert_eq!(visible_range(30, 12, 21, 11, None), (12, 30, 11));
}

#[test]
fn visible_range_single_row() {
    assert_eq!(visible_range(30, 3, 21, 11, Some(20)), (23, 24, 231));
    assert_eq!(visible_range(30, 4, 21, 11, Some(0)), (4, 5, 11));
}

#[test]
fn shift_rects_scroll_down_moves_content_up() {
    let (src, dst, blank) = shift_fb_rects(11, Direction::Up);
    assert_eq!(src, ScreenRect { x: 0, y: 11, w: 320, h: 229 });
    assert_eq!(dst, ScreenRect { x: 0, y: 0, w: 320, h: 229 });
    assert_eq!(blank, ScreenRect { x: 0, y: 229, w: 320, h: 11 });
}

#[test]
fn shift_rects_scroll_up_moves_content_down() {
    let (src, dst, blank) = shift_fb_rects(11, Direction::Down);
    assert_eq!(src, ScreenRect { x: 0, y: 0, w: 320, h: 229 });
    assert_eq!(dst, ScreenRect { x: 0, y: 11, w: 320, h: 229 });
    assert_eq!(blank, ScreenRect { x: 0, y: 0, w: 320, h: 11 });
}
