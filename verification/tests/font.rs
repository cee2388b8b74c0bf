use plato::font::{tag, Font, FreetypeError, GlyphPlan, RenderPlan, script_from_code, SymbolScript};
use plato::geom::Point;

fn glyph(codepoint: u32, advance: i32) -> GlyphPlan {
    GlyphPlan { codepoint, cluster: 0, offset: Point { x: 0, y: 0 }, advance: Point { x: advance, y: 0 } }
}

fn plan(advances: &[i32]) -> RenderPlan {
    let glyphs: Vec<GlyphPlan> = advances.iter().enumerate().map(|(i, a)| glyph(i as u32, *a)).collect();
    let width = advances.iter().sum::<i32>() as u32;
    RenderPlan::from_parts(width, vec![(0, 7), (2, 9)], glyphs).unwrap()
}

#[test]
fn duplicate_scripts_are_refused() {
    assert!(RenderPlan::from_parts(0, vec![(1, 2), (1, 3)], Vec::new()).is_none());
}

#[test]
fn advances() {
    let p = plan(&[10, 20, 30]);
    assert_eq!(p.total_advance(0), 0);
    assert_eq!(p.total_advance(2), 30);
    assert_eq!(p.total_advance(5), 60);
    assert_eq!(p.glyph_advance(1), 20);
    assert_eq!(p.index_from_advance(5), 0);
    assert_eq!(p.index_from_advance(8), 1);
    assert_eq!(p.index_from_advance(25), 2);
    assert_eq!(p.index_from_advance(100), 3);
}

#[test]
fn spacing_out_widens_all_but_the_last_glyph() {
    let mut p = plan(&[10, 20, 30]);
    p.space_out(2);
    assert_eq!(p.width, 64);
    assert_eq!(p.glyph_advance(0), 12);
    assert_eq!(p.glyph_advance(1), 22);
    assert_eq!(p.glyph_advance(2), 30);
}

#[test]
fn split_off_and_append_undo_each_other() {
    let mut p = plan(&[10, 20, 30, 40]);
    let mut q = p.split_off(2, 30);
    assert_eq!(p.width, 30);
    assert_eq!(q.width, 70);
    assert_eq!(q.glyph_advance(0), 30);
    assert_eq!(q.total_advance(2), 70);
    p.append(&mut q);
    assert_eq!(p.width, 100);
    assert_eq!(p.total_advance(4), 100);
    assert_eq!(p.glyph_advance(3), 40);
}

#[test]
fn crop_right_puts_an_ellipsis() {
    let ellipsis = RenderPlan::from_parts(5, Vec::new(), vec![glyph(99, 5)]).unwrap();
    let font = Font::new(ellipsis, (0, 0), 0);
    let mut p = plan(&[10, 20, 30]);
    font.crop_right(&mut p, 40);
    assert_eq!(p.width, 35);
    assert_eq!(p.total_advance(10), 35);
    assert_eq!(p.glyph_advance(2), 5);
    let mut q = plan(&[10, 20, 30]);
    font.crop_right(&mut q, 60);
    assert_eq!(q.width, 60);
}

#[test]
fn cut_points_fall_on_spaces() {
    let font = Font::new(RenderPlan::new(), (0, 0), 1);
    let p = plan(&[10, 10, 10, 10, 10]);
    assert_eq!(font.cut_point(&p, 25), (1, 10));
    let font = Font::new(RenderPlan::new(), (0, 0), 42);
    assert_eq!(font.cut_point(&p, 25), (2, 20));
}

#[test]
fn tags() {
    assert_eq!(tag(b'k', b'e', b'r', b'n'), 0x6B65726E);
}

#[test]
fn freetype_errors() {
    assert_eq!(FreetypeError::from_code(0x01), FreetypeError::CannotOpenResource);
    assert_eq!(FreetypeError::from_code(0xBA), FreetypeError::CorruptedFontGlyphs);
    assert_eq!(FreetypeError::from_code(0x0D), FreetypeError::UnknownError(0x0D));
}

#[test]
fn symbol_scripts() {
    assert_eq!(script_from_code(0x2200), SymbolScript::Maths);
    assert_eq!(script_from_code(0x1D100), SymbolScript::Music);
    assert_eq!(script_from_code(0x2460), SymbolScript::MiscOne);
    assert_eq!(script_from_code(0x2800), SymbolScript::MiscTwo);
    assert_eq!(script_from_code(0x1F600), SymbolScript::Emoji);
    assert_eq!(script_from_code(0x41), SymbolScript::Unknown);
    assert_eq!(script_from_code(0x23D0), SymbolScript::Maths);
}

fn advances_of(p: &RenderPlan, n: usize) -> Vec<i32> {
    (0..n).map(|i| p.glyph_advance(i)).collect()
}

#[test]
fn crop_around_keeps_a_window_between_ellipses() {
    let ellipsis = RenderPlan::from_parts(3, Vec::new(), vec![glyph(99, 3)]).unwrap();
    let font = Font::new(ellipsis, (0, 0), 0);
    let widths = [5, 6, 7, 8, 9, 10, 11, 12, 13, 14];

    let mut p = plan(&widths);
    assert_eq!(font.crop_around(&mut p, 5, 40), 3);
    assert_eq!(p.width, 33);
    assert_eq!(advances_of(&p, 5), vec![3, 8, 9, 10, 3]);
    assert_eq!(p.total_advance(10), 33);

    let mut p = plan(&widths);
    assert_eq!(font.crop_around(&mut p, 0, 30), 0);
    assert_eq!(p.width, 29);
    assert_eq!(advances_of(&p, 5), vec![5, 6, 7, 8, 3]);

    let mut p = plan(&widths);
    assert_eq!(font.crop_around(&mut p, 10, 30), 8);
    assert_eq!(p.width, 30);
    assert_eq!(advances_of(&p, 3), vec![3, 13, 14]);

    let mut p = plan(&widths);
    assert_eq!(font.crop_around(&mut p, 5, 200), 0);
    assert_eq!(p.width, 95);
    assert_eq!(advances_of(&p, 10), widths.to_vec());
}

#[test]
fn appending_a_split_restores_the_plan() {
    let original = plan(&[3, 4, 5, 6]);
    for index in 0..=4 {
        let mut head = original.clone();
        let mut tail = head.split_off(index, 7);
        head.append(&mut tail);
        assert_eq!(format!("{:?}", head), format!("{:?}", original));
        assert_eq!(head.width, original.width);
        assert_eq!(tail.width, original.width - 7);
    }
}
