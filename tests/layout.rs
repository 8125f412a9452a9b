use app_units::Au;
use webrender_api::{FontInstanceKey, FontKey, IdNamespace};
use wedit::context::{FontCache, InstanceStep};
use wedit::display_list::TextItem;
use wedit::fragment::{BoxFragment, Fragment, TextFragment};
use wedit::geometry::{Constraint, Point, Rect, Sides, Size};
use wedit::inline::{break_lines, scale_glyphs, FaceInfo, GlyphInfo, Script, ShapingError, TextRun};
use wedit::units::{au_add, au_div, au_mul};
use wedit::widget::{layout_root, Block, FontStyle, InlineState, LayoutError, Text, TextStyle};

fn px(n: i32) -> Au {
    Au(n * 60)
}

fn run_face() -> FaceInfo {
    FaceInfo { path: "resources/FiraCode-Regular.otf".to_string(), index: 0 }
}

fn glyph(id: u32, advance: Au) -> GlyphInfo {
    GlyphInfo { glyph_id: id, advance, offset: Point { i: Au(0), b: Au(0) } }
}

fn style(font_size: i32, line_height: i32) -> TextStyle {
    TextStyle {
        color: 0,
        font_family: "Fira Code".to_string(),
        font_size: px(font_size),
        font_weight: 400,
        font_style: FontStyle::Normal,
        line_height: px(line_height),
    }
}

fn put_u16(v: &mut Vec<u8>, x: u16) {
    v.extend_from_slice(&x.to_be_bytes());
}

fn put_u32(v: &mut Vec<u8>, x: u32) {
    v.extend_from_slice(&x.to_be_bytes());
}

// A font with only the tables every face must have: `head` (1000 units per em), `hhea`
// and `maxp` (one glyph). Every character maps to glyph 0.
fn tiny_font() -> Vec<u8> {
    let mut v = Vec::new();
    put_u32(&mut v, 0x0001_0000);
    put_u16(&mut v, 3);
    put_u16(&mut v, 0);
    put_u16(&mut v, 0);
    put_u16(&mut v, 0);
    for (tag, offset, len) in [(b"head", 60u32, 54u32), (b"hhea", 114, 36), (b"maxp", 150, 6)] {
        v.extend_from_slice(tag);
        put_u32(&mut v, 0);
        put_u32(&mut v, offset);
        put_u32(&mut v, len);
    }
    put_u32(&mut v, 0x0001_0000);
    put_u32(&mut v, 0);
    put_u32(&mut v, 0);
    put_u32(&mut v, 0x5F0F_3CF5);
    put_u16(&mut v, 0);
    put_u16(&mut v, 1000);
    v.extend_from_slice(&[0u8; 16]);
    v.extend_from_slice(&[0u8; 8]);
    v.extend_from_slice(&[0u8; 6]);
    put_u16(&mut v, 0);
    put_u16(&mut v, 0);
    put_u32(&mut v, 0x0001_0000);
    put_u16(&mut v, 800);
    put_u16(&mut v, 200);
    put_u16(&mut v, 0);
    v.extend_from_slice(&[0u8; 24]);
    put_u16(&mut v, 0);
    put_u32(&mut v, 0x0000_5000);
    put_u16(&mut v, 1);
    assert_eq!(v.len(), 156);
    v
}

fn loaded_cache(bytes: Vec<u8>) -> FontCache {
    let mut cache = FontCache::new();
    cache.add_font(run_face(), bytes, FontKey::new(IdNamespace(1), 7));
    cache
}

fn texts_of(b: &BoxFragment) -> Vec<&TextFragment> {
    b.children
        .iter()
        .map(|f| match f {
            Fragment::Text(t) => t,
            Fragment::Box(_) => panic!("unexpected box"),
        })
        .collect()
}

fn breaks(glyphs: &Vec<GlyphInfo>, width: Au, line_height: Au) -> (Vec<TextFragment>, Au) {
    let mut out = Vec::new();
    let next = break_lines(glyphs, width, line_height, Au(0), &run_face(), px(16), &mut out);
    (out, next)
}

#[test]
fn au_arithmetic_matches_app_units() {
    assert_eq!(au_add(Au(7), Au(5)), Au(7) + Au(5));
    assert_eq!(au_add(Au((1 << 30) - 1), Au(1)), Au((1 << 30) - 1));
    assert_eq!(au_mul(Au(7), 5), Au(35));
    assert_eq!(au_mul(Au((1 << 30) - 1), -1), Au(-((1 << 30) - 1)));
    assert_eq!(au_mul(Au(1 << 29), 1 << 20), Au((1 << 30) - 1));
    assert_eq!(au_div(Au(14), 5), Au(2));
    assert_eq!(au_div(Au(-14), 5), Au(-2));
}

#[test]
fn rect_translate_moves_origin_keeps_size() {
    let r = Rect { origin: Point::new(px(1), px(2)), size: Size { width: px(10), height: px(20) } };
    let t = r.translate(Point::new(px(3), px(4)));
    assert_eq!(t.origin, Point { i: px(4), b: px(6) });
    assert_eq!(t.size, r.size);
    assert_eq!(Point::new(Au(1), Au(2)).add(Point::new(Au(10), Au(20))), Point { i: Au(11), b: Au(22) });
}

#[test]
fn sides_zero_and_constraint() {
    let s = Sides::zero();
    assert_eq!(s, Sides { left: Au(0), right: Au(0), top: Au(0), bottom: Au(0) });
    let c = Constraint::new(Size { width: px(5), height: px(6) });
    assert_eq!(c.size, Size { width: px(5), height: px(6) });
}

#[test]
fn text_style_default() {
    let s = TextStyle::default();
    assert_eq!(s.color, 0);
    assert_eq!(s.font_family, "");
    assert_eq!(s.font_size, px(16));
    assert_eq!(s.line_height, px(22));
    assert_eq!(s.font_weight, 400);
    assert_eq!(s.font_style, FontStyle::Normal);
}

#[test]
fn scale_glyphs_converts_design_units() {
    let raw = vec![(5u32, 600i32, 10i32, -20i32)];
    let g = scale_glyphs(&raw, px(16), 1000);
    assert_eq!(g.len(), 1);
    assert_eq!(g[0].glyph_id, 5);
    assert_eq!(g[0].advance, Au(576));
    assert_eq!(g[0].offset, Point { i: Au(9), b: Au(-19) });
}

#[test]
fn itemize_gives_one_latin_run() {
    let t = Text { text: "Hello".to_string(), style: style(16, 24) };
    let runs = t.itemize();
    assert_eq!(runs.len(), 1);
    assert_eq!(runs[0].text, "Hello");
    assert_eq!(runs[0].face_info, run_face());
    assert_eq!(runs[0].font_size, px(16));
    assert_eq!(runs[0].script, Script::Latin);
    assert!(!runs[0].rtl);
}

#[test]
fn shape_rejects_bytes_that_are_no_font() {
    let run = TextRun { text: "Hi".to_string(), face_info: run_face(), font_size: px(16), script: Script::Latin, rtl: false };
    assert_eq!(run.shape(&[1, 2, 3]).unwrap_err(), ShapingError::InvalidFace);
}

#[test]
fn shape_gives_one_glyph_per_character() {
    let run = TextRun { text: "Hi".to_string(), face_info: run_face(), font_size: px(16), script: Script::Latin, rtl: false };
    let glyphs = run.shape(&tiny_font()).unwrap();
    assert_eq!(glyphs.len(), 2);
    assert_eq!(glyphs[0].glyph_id, 0);
    assert_eq!(glyphs[1].glyph_id, 0);
    assert_eq!(glyphs[0].advance, glyphs[1].advance);
}

#[test]
fn single_line_fit() {
    let cache = loaded_cache(tiny_font());
    let root = Block::new(vec![Text { text: "Hi".to_string(), style: style(16, 24) }]);
    let viewport = Size { width: px(1024), height: px(768) };
    let b = layout_root(&root, &cache, viewport).unwrap();
    assert_eq!(b.rect, Rect { origin: Point { i: Au(0), b: Au(0) }, size: viewport });
    let frags = texts_of(&b);
    assert_eq!(frags.len(), 1);
    assert_eq!(frags[0].rect.origin, Point { i: Au(0), b: Au(0) });
    assert_eq!(frags[0].rect.size.height, px(24));
    assert_eq!(frags[0].glyphs.len(), 2);
    let mut items: Vec<TextItem> = Vec::new();
    b.build_display_list(Rect { origin: Point { i: Au(0), b: Au(0) }, size: viewport }, &mut items);
    assert_eq!(items.len(), 1);
    assert_eq!(items[0].glyphs.len(), 2);
    assert!(items[0].glyphs.iter().all(|g| g.point.b == px(24)));
}

#[test]
fn single_line_fit_with_advances() {
    let glyphs = vec![glyph(43, px(10)), glyph(76, px(4))];
    let (frags, next) = breaks(&glyphs, px(1024), px(24));
    assert_eq!(frags.len(), 1);
    assert_eq!(frags[0].rect.origin, Point { i: Au(0), b: Au(0) });
    assert_eq!(frags[0].rect.size, Size { width: px(14), height: px(24) });
    assert_eq!(frags[0].glyphs.len(), 2);
    assert_eq!(next, px(24));
    let item = frags[0].build_display_list(Rect { origin: Point { i: Au(0), b: Au(0) }, size: Size { width: px(1024), height: px(768) } });
    assert_eq!(item.glyphs[0].point, Point { i: Au(0), b: px(24) });
    assert_eq!(item.glyphs[1].point, Point { i: px(10), b: px(24) });
}

#[test]
fn exact_fit_line() {
    let glyphs: Vec<GlyphInfo> = (0..4).map(|k| glyph(k, px(25))).collect();
    let (frags, _) = breaks(&glyphs, px(100), px(24));
    assert_eq!(frags.len(), 1);
    assert_eq!(frags[0].rect.size.width, px(100));
}

#[test]
fn wrap_at_overflow() {
    let glyphs: Vec<GlyphInfo> = (0..10).map(|k| glyph(k, px(10))).collect();
    let (frags, next) = breaks(&glyphs, px(65), px(24));
    assert_eq!(frags.len(), 2);
    assert_eq!(frags[0].glyphs, glyphs[0..6].to_vec());
    assert_eq!(frags[0].rect.size.width, px(60));
    assert_eq!(frags[1].rect.origin, Point { i: Au(0), b: px(24) });
    assert_eq!(frags[1].glyphs, glyphs[6..].to_vec());
    assert_eq!(frags[1].rect.size.width, px(40));
    assert_eq!(next, px(48));
}

#[test]
fn oversized_single_glyph() {
    let glyphs = vec![glyph(1, px(50))];
    let (frags, _) = breaks(&glyphs, px(20), px(24));
    assert_eq!(frags.len(), 1);
    assert_eq!(frags[0].rect.size.width, px(50));
    assert_eq!(frags[0].glyphs.len(), 1);
}

#[test]
fn oversized_glyph_between_others() {
    let glyphs = vec![glyph(1, px(10)), glyph(2, px(50)), glyph(3, px(10))];
    let (frags, _) = breaks(&glyphs, px(20), px(24));
    assert_eq!(frags.len(), 3);
    assert_eq!(frags[1].rect.size.width, px(50));
    assert_eq!(frags[2].rect.origin.b, px(48));
}

#[test]
fn empty_text() {
    let (frags, next) = breaks(&Vec::new(), px(100), px(24));
    assert!(frags.is_empty());
    assert_eq!(next, Au(0));
    let cache = loaded_cache(tiny_font());
    let root = Block::new(vec![Text { text: "".to_string(), style: style(16, 24) }]);
    let b = layout_root(&root, &cache, Size { width: px(1024), height: px(768) }).unwrap();
    assert!(b.children.is_empty());
}

#[test]
fn texts_stack_vertically() {
    let cache = loaded_cache(tiny_font());
    let root = Block::new(vec![
        Text { text: "a".to_string(), style: style(16, 24) },
        Text { text: "b".to_string(), style: style(16, 30) },
    ]);
    let b = layout_root(&root, &cache, Size { width: px(100), height: px(100) }).unwrap();
    let frags = texts_of(&b);
    assert_eq!(frags.len(), 2);
    assert_eq!(frags[0].rect.origin.b, Au(0));
    assert_eq!(frags[1].rect.origin.b, px(24));
    assert_eq!(frags[1].rect.size.height, px(30));
}

#[test]
fn text_layout_moves_block_position() {
    let cache = loaded_cache(tiny_font());
    let t = Text { text: "xy".to_string(), style: style(16, 20) };
    let mut state = InlineState {
        lines: Vec::new(),
        inline_position: Au(0),
        block_position: px(5),
        containing_block: Size { width: px(100), height: px(100) },
    };
    let frags = t.layout(&mut state, &cache).unwrap();
    assert_eq!(frags.len(), 1);
    assert_eq!(frags[0].rect.origin.b, px(5));
    assert_eq!(state.block_position, px(25));
}

#[test]
fn layout_without_loaded_face_fails() {
    let cache = FontCache::new();
    let root = Block::new(vec![Text { text: "Hi".to_string(), style: style(16, 24) }]);
    let r = root.layout(&cache, Size { width: px(100), height: px(100) });
    assert_eq!(r.unwrap_err(), LayoutError::FontNotLoaded);
    let empty = Block::new(Vec::new());
    assert!(empty.layout(&cache, Size { width: px(100), height: px(100) }).unwrap().children.is_empty());
}

#[test]
fn layout_with_unreadable_face_fails() {
    let cache = loaded_cache(vec![0, 1, 2, 3]);
    let root = Block::new(vec![Text { text: "Hi".to_string(), style: style(16, 24) }]);
    let r = root.layout(&cache, Size { width: px(100), height: px(100) });
    assert_eq!(r.unwrap_err(), LayoutError::Shaping(ShapingError::InvalidFace));
}

#[test]
fn layout_is_deterministic() {
    let cache = loaded_cache(tiny_font());
    let root = Block::new(vec![Text { text: "Hello, world!".to_string(), style: style(16, 24) }]);
    let vp = Size { width: px(1024), height: px(768) };
    let a = layout_root(&root, &cache, vp).unwrap();
    let b = layout_root(&root, &cache, vp).unwrap();
    assert_eq!(format!("{:?}", a), format!("{:?}", b));
}

#[test]
fn cache_reuse() {
    let face = run_face();
    let mut cache = FontCache::new();
    assert!(matches!(cache.instance_step(&face, 16), InstanceStep::LoadFace));
    assert!(cache.get_font(&face).is_none());
    let fk = FontKey::new(IdNamespace(1), 3);
    cache.add_font(face.clone(), tiny_font(), fk);
    match cache.instance_step(&face, 16) {
        InstanceStep::Register(k) => assert_eq!(k, fk),
        other => panic!("expected a registration, got {:?}", other),
    }
    let ik = FontInstanceKey::new(IdNamespace(1), 4);
    cache.add_font_instance(face.clone(), 16, ik);
    for _ in 0..2 {
        match cache.instance_step(&face, 16) {
            InstanceStep::Ready(k) => assert_eq!(k, ik),
            other => panic!("expected a cached instance, got {:?}", other),
        }
        assert_eq!(cache.get_font_instance_key(&face, 16), Some(ik));
        assert_eq!(cache.get_font(&face).unwrap(), &tiny_font());
        assert_eq!(cache.get_font_key(&face), Some(fk));
    }
    assert!(matches!(cache.instance_step(&face, 32), InstanceStep::Register(_)));
    let root = Block::new(vec![Text { text: "Hi".to_string(), style: style(16, 24) }]);
    let vp = Size { width: px(1024), height: px(768) };
    let first = layout_root(&root, &cache, vp).unwrap();
    let second = layout_root(&root, &cache, vp).unwrap();
    assert_eq!(format!("{:?}", first), format!("{:?}", second));
    assert!(matches!(cache.instance_step(&face, 16), InstanceStep::Ready(_)));
}

#[test]
fn nested_boxes_place_text_in_parent_space() {
    let inner_text = TextFragment {
        rect: Rect { origin: Point { i: px(1), b: px(2) }, size: Size { width: px(10), height: px(20) } },
        face_info: run_face(),
        font_size: px(16),
        glyphs: vec![glyph(9, px(3)), GlyphInfo { glyph_id: 8, advance: px(4), offset: Point { i: px(1), b: px(-1) } }],
    };
    let inner = BoxFragment {
        rect: Rect { origin: Point { i: px(5), b: px(7) }, size: Size { width: px(50), height: px(50) } },
        margin: Sides::zero(),
        children: vec![Fragment::Text(inner_text)],
    };
    let outer = BoxFragment {
        rect: Rect { origin: Point { i: px(100), b: px(200) }, size: Size { width: px(500), height: px(500) } },
        margin: Sides::zero(),
        children: vec![Fragment::Box(inner)],
    };
    let mut items = Vec::new();
    outer.build_display_list(Rect { origin: Point { i: Au(0), b: Au(0) }, size: Size { width: px(800), height: px(600) } }, &mut items);
    assert_eq!(items.len(), 1);
    assert_eq!(items[0].bounds.origin, Point { i: px(106), b: px(209) });
    assert_eq!(items[0].bounds.size, Size { width: px(10), height: px(20) });
    assert_eq!(items[0].face_info, run_face());
    assert_eq!(items[0].font_size, px(16));
    assert_eq!(items[0].glyphs[0].index, 9);
    assert_eq!(items[0].glyphs[0].point, Point { i: Au(0), b: px(229) });
    assert_eq!(items[0].glyphs[1].point, Point { i: px(4), b: px(228) });
}
