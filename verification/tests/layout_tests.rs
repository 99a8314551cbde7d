use rustex::layout::i64_to_string;
use rustex::layout::LayoutPart;
use rustex::KElement;
use rustex::LayoutTree;
use rustex::ShapedGlyph;

fn glyph(x: u32, y: u32, width: u32, height: u32) -> ShapedGlyph {
    ShapedGlyph { x, y, width, height, coverage: vec![255; (width * height) as usize] }
}

#[test]
fn text_bounds_add_padding_and_offset() {
    let run = vec![glyph(0, 0, 4, 6), glyph(4, 0, 4, 6)];
    // raw extent 8x6; padding 10% of scale on each side; baseline at half
    // the height plus 15% of scale.
    let bounds = KElement::measure_text_bounds(&run, 100, 10, 15);
    assert_eq!(bounds, Some((28, 6, 18)));
}

#[test]
fn text_bounds_reject_mismatched_coverage() {
    let mut bad = glyph(0, 0, 2, 2);
    bad.coverage.pop();
    assert_eq!(KElement::measure_text_bounds(&vec![bad], 100, 0, 0), None);
}

#[test]
fn text_block_copies_each_coverage_byte() {
    let mut g = glyph(0, 0, 2, 2);
    g.coverage = vec![1, 2, 3, 4];
    let canvas = KElement::render_text_block(&vec![g], 100, 0).expect("render text block");
    assert_eq!((canvas.width, canvas.height), (2, 2));
    assert_eq!(canvas.data, vec![1, 2, 3, 4]);
}

#[test]
fn text_block_places_glyphs_behind_the_padding() {
    let mut g = glyph(0, 0, 2, 1);
    g.coverage = vec![7, 8];
    let canvas = KElement::render_text_block(&vec![g], 100, 50).expect("render padded block");
    assert_eq!((canvas.width, canvas.height), (102, 1));
    assert_eq!(canvas.get_pixel(0, 0), 0);
    assert_eq!(canvas.get_pixel(50, 0), 7);
    assert_eq!(canvas.get_pixel(51, 0), 8);
}

#[test]
fn fraction_queries_shrink_the_operand_scale() {
    let expr = KElement::parse("\\frac{1}{2}").expect("build fraction");
    let queries = expr.leaf_queries(100);
    assert_eq!(queries.len(), 2);
    assert_eq!(queries[0].text, "1");
    assert_eq!(queries[0].font_index, 1);
    assert_eq!(queries[0].px, 80);
    assert_eq!(queries[1].text, "2");
    assert_eq!(queries[1].px, 80);
}

#[test]
fn integer_leaf_queries_use_its_decimal_text() {
    let expr = KElement::Integer(-42);
    let queries = expr.leaf_queries(50);
    assert_eq!(queries.len(), 1);
    assert_eq!(queries[0].text, "-42");
    assert_eq!(queries[0].font_index, 0);
    assert_eq!(queries[0].px, 50);
}

#[test]
fn fraction_bounds_stack_operands_with_padding() {
    let expr = KElement::parse("\\frac{1}{2}").expect("build fraction");
    let runs = vec![vec![glyph(0, 0, 3, 8)], vec![glyph(0, 0, 5, 8)]];
    // Operands 3x8 and 5x8 at the shrunken scale; fraction padding is 20%
    // of the local scale 100.
    assert_eq!(expr.get_bounds(100, &runs), Some((45, 36, 18)));
}

#[test]
fn measured_and_rendered_dimensions_agree() {
    // The measurement pass and the render pass of one expression, fed the
    // same answers, agree exactly on the canvas dimensions.
    let expr = KElement::parse("\\frac{1}{2}").expect("build fraction");
    let runs = vec![vec![glyph(0, 0, 3, 8)], vec![glyph(0, 0, 5, 8)]];
    let (w, h, _center) = expr.get_bounds(100, &runs).expect("measure");
    let canvas = expr.rasterize(100, &runs).expect("render");
    assert_eq!((canvas.width, canvas.height), (w, h));
}

#[test]
fn fraction_renders_a_full_intensity_seam_band() {
    let expr = KElement::parse("\\frac{1}{2}").expect("build fraction");
    let runs = vec![vec![glyph(0, 0, 3, 8)], vec![glyph(0, 0, 5, 8)]];
    let canvas = expr.rasterize(100, &runs).expect("render");
    // The canvas is taller than either operand by at least the padding.
    assert!(canvas.height >= 8 + 8 + 20);
    // The divider bar row sits at the seam (upper height + padding), at
    // full intensity across the width; the antialiasing band above it is
    // partial, and two rows above nothing remains.
    assert_eq!(canvas.get_pixel(22, 28), 255);
    assert_eq!(canvas.get_pixel(2, 28), 255);
    assert_eq!(canvas.get_pixel(22, 27), 128);
    assert_eq!(canvas.get_pixel(22, 26), 0);
}

#[test]
fn empty_fraction_still_measures_and_renders() {
    let expr = KElement::parse("\\frac{}{}").expect("build empty fraction");
    assert_eq!(expr.leaf_queries(100).len(), 0);
    let runs: Vec<Vec<ShapedGlyph>> = vec![];
    let (w, h, c) = expr.get_bounds(100, &runs).expect("measure");
    assert_eq!((w, h, c), (40, 20, 10));
    let canvas = expr.rasterize(100, &runs).expect("render");
    assert_eq!((canvas.width, canvas.height), (40, 20));
}

#[test]
fn superscript_raises_the_script_beside_the_inner_content() {
    let expr = KElement::parse("x^2").expect("build superscript");
    let queries = expr.leaf_queries(100);
    assert_eq!(queries.len(), 2);
    assert_eq!(queries[0].px, 100);
    assert_eq!(queries[1].px, 80);
    let runs = vec![vec![glyph(0, 0, 6, 10)], vec![glyph(0, 0, 4, 6)]];
    // Raise is 40% of the script height 6; the inner content moves down by
    // it and the baseline follows.
    assert_eq!(expr.get_bounds(100, &runs), Some((10, 12, 7)));
    let canvas = expr.rasterize(100, &runs).expect("render");
    assert_eq!((canvas.width, canvas.height), (10, 12));
    assert_eq!(canvas.get_pixel(0, 0), 0);
    assert_eq!(canvas.get_pixel(0, 2), 255);
    assert_eq!(canvas.get_pixel(6, 0), 255);
    assert_eq!(canvas.get_pixel(9, 11), 0);
}

#[test]
fn subscript_drops_the_script_below_the_inner_content() {
    let expr = KElement::parse("x_3").expect("build subscript");
    let runs = vec![vec![glyph(0, 0, 6, 10)], vec![glyph(0, 0, 4, 6)]];
    // Drop is 40% of the script height 6: the script's top starts at
    // 10 + 2 - 6 = 6, extending the height to 12; the baseline stays.
    assert_eq!(expr.get_bounds(100, &runs), Some((10, 12, 5)));
}

#[test]
fn group_children_share_one_baseline() {
    let expr = KElement::parse("ab").expect("build two letters");
    let runs = vec![vec![glyph(0, 0, 4, 6)], vec![glyph(0, 0, 4, 10)]];
    // Centers are 3 and 5; the taller ascent is 5, descents are 3 and 5.
    assert_eq!(expr.get_bounds(100, &runs), Some((8, 10, 5)));
    let canvas = expr.rasterize(100, &runs).expect("render");
    // The first child hangs from the shared baseline: it starts two rows
    // down.
    assert_eq!(canvas.get_pixel(0, 0), 0);
    assert_eq!(canvas.get_pixel(0, 2), 255);
    assert_eq!(canvas.get_pixel(4, 0), 255);
}

#[test]
fn missing_answers_fail_the_measurement() {
    let expr = KElement::parse("ab").expect("build two letters");
    let runs = vec![vec![glyph(0, 0, 4, 6)]];
    assert_eq!(expr.get_bounds(100, &runs), None);
    assert!(expr.rasterize(100, &runs).is_none());
}

#[test]
fn malformed_answer_fails_the_measurement() {
    let expr = KElement::parse("a").expect("build one letter");
    let mut bad = glyph(0, 0, 2, 2);
    bad.coverage.push(0);
    assert_eq!(expr.get_bounds(100, &vec![vec![bad]]), None);
}

#[test]
fn empty_input_renders_an_empty_canvas() {
    let expr = KElement::parse("").expect("build empty input");
    let runs: Vec<Vec<rustex::ShapedGlyph>> = vec![];
    assert_eq!(expr.get_bounds(100, &runs), Some((0, 0, 0)));
    let canvas = expr.rasterize(100, &runs).expect("render");
    assert_eq!((canvas.width, canvas.height), (0, 0));
}

#[test]
fn symbol_bounds_use_their_own_centering() {
    let run = vec![glyph(0, 0, 6, 4)];
    let equals = KElement::Equals;
    // Operator padding 10% of scale; the equals sign centers at 27% of it.
    assert_eq!(equals.get_symbol_bounds(&run, 100), Some((26, 4, 29)));
    let plus = KElement::Plus;
    assert_eq!(plus.get_symbol_bounds(&run, 100), Some((26, 4, 17)));
}

#[test]
fn symbol_rendering_matches_its_bounds() {
    let run = vec![glyph(0, 0, 6, 4)];
    let plus = KElement::Plus;
    let canvas = plus.rasterize_symbol(&run, 100).expect("render symbol");
    assert_eq!((canvas.width, canvas.height), (26, 4));
    assert_eq!(canvas.get_pixel(10, 0), 255);
    assert_eq!(canvas.get_pixel(0, 0), 0);
}

#[test]
fn decimal_leaf_queries_use_the_upright_font() {
    let expr = KElement::Decimal(String::from("1.5"));
    let queries = expr.leaf_queries(100);
    assert_eq!(queries.len(), 1);
    assert_eq!(queries[0].text, "1.5");
    assert_eq!(queries[0].font_index, 0);
    assert_eq!(queries[0].px, 100);
}

#[test]
fn composite_renders_its_sheet_at_the_recorded_offset() {
    let tree = LayoutTree::Composite {
        width: 3,
        height: 2,
        center: 0,
        parts: vec![LayoutPart::Placed {
            x: 1,
            y: 0,
            node: LayoutTree::Sheet { width: 1, height: 2, data: vec![5, 6] },
        }],
    };
    let canvas = tree.render();
    assert_eq!((canvas.width, canvas.height), (3, 2));
    assert_eq!(canvas.data, vec![0, 5, 0, 0, 6, 0]);
}

#[test]
fn decimal_text_covers_the_extremes() {
    assert_eq!(i64_to_string(0), "0");
    assert_eq!(i64_to_string(907), "907");
    assert_eq!(i64_to_string(-1), "-1");
    assert_eq!(i64_to_string(i64::MIN), "-9223372036854775808");
    assert_eq!(i64_to_string(i64::MAX), "9223372036854775807");
}
