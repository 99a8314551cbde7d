//! Layout and rasterization: measures an expression tree at a propagated
//! integer scale, records the exact geometry in a layout tree, and renders
//! that tree into a grayscale canvas.
//!
//! The font service is an outside collaborator: it answers, for each leaf in
//! left-to-right order, with a run of shaped glyphs as plain numbers (pen
//! position, size) plus the per-glyph coverage bitmap.  The measurement pass
//! consumes those answers; the render pass is a pure function of the layout
//! tree it produced, so a measured tree always renders at exactly the
//! measured dimensions.

use vstd::prelude::*;

use crate::bitmap::Bitmap;
use crate::consts::MAX_DIM;

verus! {

/// One shaped glyph from the font service: its pen position and size within
/// the leaf's run, and its coverage bitmap of `width * height` bytes.
pub struct ShapedGlyph {
    pub x: u32,
    pub y: u32,
    pub width: u32,
    pub height: u32,
    pub coverage: Vec<u8>,
}

/// Mathematical model of a shaped glyph.
pub struct GlyphV {
    pub x: int,
    pub y: int,
    pub width: int,
    pub height: int,
    pub coverage: Seq<u8>,
}

impl View for ShapedGlyph {
    type V = GlyphV;

    open spec fn view(&self) -> GlyphV {
        GlyphV {
            x: self.x as int,
            y: self.y as int,
            width: self.width as int,
            height: self.height as int,
            coverage: self.coverage@,
        }
    }
}

/// The models of a run of shaped glyphs.
pub open spec fn run_view(s: Seq<ShapedGlyph>) -> Seq<GlyphV> {
    s.map_values(|g: ShapedGlyph| g@)
}

/// The models of the answers for all leaves.
pub open spec fn runs_view(s: Seq<Vec<ShapedGlyph>>) -> Seq<Seq<GlyphV>> {
    s.map_values(|r: Vec<ShapedGlyph>| run_view(r@))
}

/// One leaf's request to the font service: the text to shape, the font to
/// shape it with, and the pixel size.
pub struct TextQuery {
    pub text: String,
    pub font_index: usize,
    pub px: u32,
}

/// Mathematical model of a font-service request.
pub struct QueryV {
    pub text: Seq<char>,
    pub font_index: int,
    pub px: int,
}

impl View for TextQuery {
    type V = QueryV;

    open spec fn view(&self) -> QueryV {
        QueryV { text: self.text@, font_index: self.font_index as int, px: self.px as int }
    }
}

/// The models of a query list.
pub open spec fn queries_view(s: Seq<TextQuery>) -> Seq<QueryV> {
    s.map_values(|q: TextQuery| q@)
}

/// The decimal digit character of a value below ten.
pub open spec fn digit_char(d: int) -> char {
    if d == 0 {
        '0'
    } else if d == 1 {
        '1'
    } else if d == 2 {
        '2'
    } else if d == 3 {
        '3'
    } else if d == 4 {
        '4'
    } else if d == 5 {
        '5'
    } else if d == 6 {
        '6'
    } else if d == 7 {
        '7'
    } else if d == 8 {
        '8'
    } else {
        '9'
    }
}

/// The decimal digits of a nonnegative number, most significant first.
pub open spec fn spec_udigits(n: int) -> Seq<char>
    decreases n,
{
    if n < 10 {
        seq![digit_char(n)]
    } else {
        spec_udigits(n / 10).push(digit_char(n % 10))
    }
}

/// The decimal text of a whole number, with a leading minus sign when
/// negative.
pub open spec fn spec_int_text(n: int) -> Seq<char> {
    if n < 0 {
        seq!['-'] + spec_udigits(-n)
    } else {
        spec_udigits(n)
    }
}

/// The single-character text of a digit below ten.
fn digit_str(d: u64) -> (r: &'static str)
    requires
        d < 10,
    ensures
        r@ == seq![digit_char(d as int)],
{
    proof {
        reveal_strlit("0");
        reveal_strlit("1");
        reveal_strlit("2");
        reveal_strlit("3");
        reveal_strlit("4");
        reveal_strlit("5");
        reveal_strlit("6");
        reveal_strlit("7");
        reveal_strlit("8");
        reveal_strlit("9");
    }
    if d == 0 {
        "0"
    } else if d == 1 {
        "1"
    } else if d == 2 {
        "2"
    } else if d == 3 {
        "3"
    } else if d == 4 {
        "4"
    } else if d == 5 {
        "5"
    } else if d == 6 {
        "6"
    } else if d == 7 {
        "7"
    } else if d == 8 {
        "8"
    } else {
        "9"
    }
}

/// The decimal text of a nonnegative number.
fn u64_to_string(n: u64) -> (r: String)
    ensures
        r@ == spec_udigits(n as int),
    decreases n,
{
    if n < 10 {
        String::from_str(digit_str(n))
    } else {
        let mut s = u64_to_string(n / 10);
        s.append(digit_str(n % 10));
        proof {
            assert(spec_udigits((n / 10) as int) + seq![digit_char((n % 10) as int)]
                =~= spec_udigits((n / 10) as int).push(digit_char((n % 10) as int)));
        }
        s
    }
}

/// The decimal text of a whole number, with a leading minus sign when
/// negative.
pub fn i64_to_string(n: i64) -> (r: String)
    ensures
        r@ == spec_int_text(n as int),
{
    if n >= 0 {
        u64_to_string(n as u64)
    } else {
        let magnitude: u64 = ((-(n + 1)) as u64) + 1;
        let mut s = String::from_str("-");
        let digits = u64_to_string(magnitude);
        s.append(digits.as_str());
        proof {
            reveal_strlit("-");
            assert("-"@ + spec_udigits(magnitude as int) =~= seq!['-'] + spec_udigits(
                -(n as int),
            ));
        }
        s
    }
}

/// Every glyph of a run carries exactly one coverage byte per pixel.
pub open spec fn run_ok(run: Seq<GlyphV>) -> bool {
    forall|i: int|
        0 <= i < run.len() ==> (#[trigger] run[i]).coverage.len() == run[i].width * run[i].height
}

/// The horizontal extent of a glyph run: the rightmost pen position plus
/// glyph width.
pub open spec fn raw_width(run: Seq<GlyphV>) -> int
    decreases run.len(),
{
    if run.len() == 0 {
        0
    } else {
        let rest = raw_width(run.drop_last());
        let this = run.last().x + run.last().width;
        if this > rest {
            this
        } else {
            rest
        }
    }
}

/// The vertical extent of a glyph run: the lowest pen position plus glyph
/// height.
pub open spec fn raw_height(run: Seq<GlyphV>) -> int
    decreases run.len(),
{
    if run.len() == 0 {
        0
    } else {
        let rest = raw_height(run.drop_last());
        let this = run.last().y + run.last().height;
        if this > rest {
            this
        } else {
            rest
        }
    }
}

/// The bounds of one text leaf: the glyph run's extent plus symmetric
/// horizontal padding, with the baseline at half the glyph height plus the
/// leaf's centering offset (paddings and offsets are in hundredths of the
/// scale).  Nothing when a coverage buffer does not match its glyph's size
/// or an extent exceeds the dimension limit.
pub open spec fn spec_text_bounds(run: Seq<GlyphV>, scale: int, pad_centi: int, off_centi: int)
    -> Option<(int, int, int)> {
    if !run_ok(run) {
        None
    } else {
        let pad = scale * pad_centi / 100;
        let w = raw_width(run) + 2 * pad;
        let h = raw_height(run);
        let c = h / 2 + off_centi * scale / 100;
        if dims_ok(w, h, c) {
            Some((w, h, c))
        } else {
            None
        }
    }
}

/// An all-black (zero) canvas buffer of the given dimensions.
pub open spec fn zeros(w: int, h: int) -> Seq<u8> {
    Seq::new((w * h) as nat, |k: int| 0u8)
}

/// The value overlaying a source buffer at `(xo, yo)` leaves at `(x, y)` of
/// a destination buffer of width `w`.
pub open spec fn ov_px(
    dst: Seq<u8>,
    w: int,
    src: Seq<u8>,
    sw: int,
    sh: int,
    xo: int,
    yo: int,
    x: int,
    y: int,
) -> u8 {
    if xo <= x < xo + sw && yo <= y < yo + sh {
        src[(y - yo) * sw + (x - xo)]
    } else {
        dst[y * w + x]
    }
}

/// A flat index of a row-major buffer addresses the cell of its column and
/// row.
pub proof fn lemma_flat_coords(k: int, w: int, h: int)
    requires
        0 < w,
        0 <= k < w * h,
    ensures
        0 <= k % w < w,
        0 <= k / w < h,
        (k / w) * w + (k % w) == k,
{
    vstd::arithmetic::div_mod::lemma_fundamental_div_mod(k, w);
    assert(0 <= k % w < w && 0 <= k / w < h && (k / w) * w + (k % w) == k) by (nonlinear_arith)
        requires
            0 < w,
            0 <= k < w * h,
            k == w * (k / w) + (k % w),
            0 <= k % w < w,
    ;
}

/// One placed piece of a composite surface: a sub-surface at an offset, or
/// an antialiased bar.
pub enum LayoutPart {
    Placed { x: usize, y: usize, node: LayoutTree },
    Bar { x0: usize, y0: usize, x1: usize, y1: usize, thickness: u32, color: u8 },
}

/// The exact geometry of a measured expression: a tree of composite
/// surfaces whose leaves are glyph coverage sheets.  Rendering a
/// well-formed tree is a pure function that allocates each node's canvas at
/// the recorded dimensions and composites the parts.
pub enum LayoutTree {
    /// One glyph's coverage bitmap as a surface.
    Sheet { width: usize, height: usize, data: Vec<u8> },
    /// A canvas of the recorded dimensions holding placed parts; `center`
    /// is the node's baseline offset from the top, used by the parent.
    Composite { width: usize, height: usize, center: usize, parts: Vec<LayoutPart> },
}

impl LayoutTree {
    /// The recorded width of this node's surface.
    pub open spec fn spec_width(&self) -> usize {
        match *self {
            LayoutTree::Sheet { width, .. } => width,
            LayoutTree::Composite { width, .. } => width,
        }
    }

    /// The recorded height of this node's surface.
    pub open spec fn spec_height(&self) -> usize {
        match *self {
            LayoutTree::Sheet { height, .. } => height,
            LayoutTree::Composite { height, .. } => height,
        }
    }

    /// The recorded baseline offset of this node.
    pub open spec fn spec_center(&self) -> usize {
        match *self {
            LayoutTree::Sheet { .. } => 0,
            LayoutTree::Composite { center, .. } => center,
        }
    }

    /// Well-formedness: dimensions stay within the limit, a sheet's buffer
    /// matches its size, and every part lies inside its node's surface.
    pub open spec fn wf(&self) -> bool
        decreases self,
    {
        match *self {
            LayoutTree::Sheet { width, height, data } => {
                &&& width <= MAX_DIM
                &&& height <= MAX_DIM
                &&& data.len() == width * height
            },
            LayoutTree::Composite { width, height, center, parts } => {
                &&& width <= MAX_DIM
                &&& height <= MAX_DIM
                &&& forall|i: int|
                    0 <= i < parts@.len() ==> part_wf(
                        #[trigger] parts@[i],
                        width as int,
                        height as int,
                    )
            },
        }
    }

    /// Renders this tree into a fresh canvas of exactly the recorded
    /// dimensions: parts are composited by overlay, bars by antialiased
    /// line drawing.
    pub fn render(&self) -> (r: Bitmap)
        requires
            self.wf(),
        ensures
            r.wf(),
            r.width == self.spec_width(),
            r.height == self.spec_height(),
            r.data@ == spec_render(*self),
        decreases self,
    {
        match self {
            LayoutTree::Sheet { width, height, data } => {
                let copy = copy_bytes(data);
                Bitmap::from_data(copy, *width, *height)
            },
            LayoutTree::Composite { width, height, center, parts } => {
                proof {
                    lemma_dim_product(*width, *height);
                }
                let ghost w = *width as int;
                let ghost h = *height as int;
                let mut canvas = Bitmap::new(*width, *height);
                proof {
                    assert forall|k: int| 0 <= k < canvas.data@.len() implies canvas.data@[k]
                        == zeros(w, h)[k] by {
                        lemma_flat_coords(k, w, h);
                        assert(canvas.pixel(k % w, k / w) == canvas.data@[k]);
                    }
                    assert(canvas.data@ =~= zeros(w, h));
                    assert(parts@.take(0) =~= Seq::<LayoutPart>::empty());
                }
                let mut i: usize = 0;
                while i < parts.len()
                    invariant
                        self.wf(),
                        *self == (LayoutTree::Composite {
                            width: *width,
                            height: *height,
                            center: *center,
                            parts: *parts,
                        }),
                        w == *width as int,
                        h == *height as int,
                        canvas.wf(),
                        canvas.width == *width,
                        canvas.height == *height,
                        i <= parts@.len(),
                        canvas.data@ == apply_parts(zeros(w, h), w, h, parts@.take(i as int)),
                    decreases parts@.len() - i,
                {
                    let ghost pre = canvas;
                    proof {
                        assert(parts@.take(i as int + 1).drop_last() =~= parts@.take(i as int));
                        assert(parts@.take(i as int + 1).last() == parts@[i as int]);
                    }
                    match &parts[i] {
                        LayoutPart::Placed { x, y, node } => {
                            proof {
                                assert(parts@[i as int] == self->Composite_parts@[i as int]);
                                assert(part_wf(
                                    self->Composite_parts@[i as int],
                                    *width as int,
                                    *height as int,
                                ));
                                assert(decreases_to!(*self => self->Composite_parts@[i as int]));
                                assert(decreases_to!(
                                    parts@[i as int] => parts@[i as int]->Placed_node
                                ));
                                assert(*node == parts@[i as int]->Placed_node);
                            }
                            let sub = node.render();
                            canvas.overlay(&sub, *x, *y);
                            proof {
                                let part = parts@[i as int];
                                assert forall|k: int| 0 <= k < canvas.data@.len() implies
                                    canvas.data@[k] == apply_part(pre.data@, w, h, part)[k] by {
                                    assert(0 < w) by (nonlinear_arith)
                                        requires
                                            0 <= k < w * h,
                                            0 <= w,
                                    ;
                                    lemma_flat_coords(k, w, h);
                                    let px = k % w;
                                    let py = k / w;
                                    assert(canvas.pixel(px, py) == canvas.data@[k]);
                                    assert(canvas.pixel(px, py) == crate::bitmap::overlay_pixel(
                                        pre,
                                        sub,
                                        *x as int,
                                        *y as int,
                                        px,
                                        py,
                                    ));
                                    if *x <= px < *x + sub.width && *y <= py < *y + sub.height {
                                        assert(sub.pixel(px - *x, py - *y) == sub.data@[(py - *y)
                                            * sub.width + (px - *x)]);
                                    } else {
                                        assert(pre.pixel(px, py) == pre.data@[py * w + px]);
                                    }
                                }
                                assert(canvas.data@ =~= apply_part(pre.data@, w, h, part));
                            }
                        },
                        LayoutPart::Bar { x0, y0, x1, y1, thickness, color } => {
                            proof {
                                assert(parts@[i as int] == self->Composite_parts@[i as int]);
                                assert(part_wf(
                                    self->Composite_parts@[i as int],
                                    *width as int,
                                    *height as int,
                                ));
                            }
                            canvas.draw_line(*x0, *y0, *x1, *y1, *thickness, *color);
                            proof {
                                let part = parts@[i as int];
                                if *x0 == *x1 && *y0 == *y1 {
                                    assert(canvas.data@ == apply_part(pre.data@, w, h, part));
                                } else {
                                    assert forall|k: int| 0 <= k < canvas.data@.len() implies
                                        canvas.data@[k] == apply_part(pre.data@, w, h, part)[k] by {
                                        assert(0 < w) by (nonlinear_arith)
                                            requires
                                                0 <= k < w * h,
                                                0 <= w,
                                        ;
                                        lemma_flat_coords(k, w, h);
                                        let px = k % w;
                                        let py = k / w;
                                        assert(canvas.pixel(px, py) == canvas.data@[k]);
                                        assert(pre.pixel(px, py) == pre.data@[py * w + px]);
                                        crate::line::lemma_blend_bound(
                                            pre.pixel(px, py),
                                            *color,
                                            crate::line::line_alpha(
                                                px,
                                                py,
                                                *x0 as int,
                                                *y0 as int,
                                                *x1 as int,
                                                *y1 as int,
                                                *thickness as int,
                                            ),
                                        );
                                    }
                                    assert(canvas.data@ =~= apply_part(pre.data@, w, h, part));
                                }
                            }
                        },
                    }
                    i = i + 1;
                }
                proof {
                    assert(parts@.take(parts@.len() as int) =~= parts@);
                }
                canvas
            },
        }
    }
}

/// Well-formedness of one part within a surface of the given dimensions.
pub open spec fn part_wf(p: LayoutPart, width: int, height: int) -> bool
    decreases p,
{
    match p {
        LayoutPart::Placed { x, y, node } => {
            &&& node.wf()
            &&& x + node.spec_width() <= width
            &&& y + node.spec_height() <= height
        },
        LayoutPart::Bar { x0, y0, x1, y1, thickness, color } => {
            &&& x0 <= MAX_DIM
            &&& y0 <= MAX_DIM
            &&& x1 <= MAX_DIM
            &&& y1 <= MAX_DIM
        },
    }
}

/// The buffer after compositing one part onto a canvas of the given
/// dimensions: a placed node overwrites its window with the node's own
/// rendering; a bar blends every pixel by its line coverage, a degenerate
/// bar drawing nothing.
pub open spec fn apply_part(canvas: Seq<u8>, w: int, h: int, p: LayoutPart) -> Seq<u8>
    decreases p,
{
    match p {
        LayoutPart::Placed { x, y, node } => Seq::new(
            canvas.len(),
            |k: int|
                if w > 0 {
                    ov_px(
                        canvas,
                        w,
                        spec_render(node),
                        node.spec_width() as int,
                        node.spec_height() as int,
                        x as int,
                        y as int,
                        k % w,
                        k / w,
                    )
                } else {
                    0
                },
        ),
        LayoutPart::Bar { x0, y0, x1, y1, thickness, color } => {
            if x0 == x1 && y0 == y1 {
                canvas
            } else {
                Seq::new(
                    canvas.len(),
                    |k: int|
                        if w > 0 {
                            crate::line::blend256(
                                canvas[k],
                                color,
                                crate::line::line_alpha(
                                    k % w,
                                    k / w,
                                    x0 as int,
                                    y0 as int,
                                    x1 as int,
                                    y1 as int,
                                    thickness as int,
                                ),
                            ) as u8
                        } else {
                            0
                        },
                )
            }
        },
    }
}

/// The buffer after compositing a list of parts in order.
pub open spec fn apply_parts(canvas: Seq<u8>, w: int, h: int, parts: Seq<LayoutPart>) -> Seq<u8>
    decreases parts,
{
    if parts.len() == 0 {
        canvas
    } else {
        apply_part(apply_parts(canvas, w, h, parts.drop_last()), w, h, parts.last())
    }
}

/// The exact pixel buffer a layout tree renders to: a sheet is its own
/// coverage buffer; a composite starts from a zero canvas of its recorded
/// dimensions and composites its parts in order.
pub open spec fn spec_render(t: LayoutTree) -> Seq<u8>
    decreases t,
{
    match t {
        LayoutTree::Sheet { width, height, data } => data@,
        LayoutTree::Composite { width, height, center, parts } => apply_parts(
            zeros(width as int, height as int),
            width as int,
            height as int,
            parts@,
        ),
    }
}

/// Dimensions within the limit multiply without overflowing a machine word.
pub proof fn lemma_dim_product(w: usize, h: usize)
    requires
        w <= MAX_DIM,
        h <= MAX_DIM,
    ensures
        w * h <= 0x40000000,
{
    assert(w * h <= 0x40000000) by (nonlinear_arith)
        requires
            w <= 0x8000,
            h <= 0x8000,
    ;
}

/// A fresh copy of a byte buffer.
fn copy_bytes(v: &Vec<u8>) -> (r: Vec<u8>)
    ensures
        r@ == v@,
{
    let mut r: Vec<u8> = Vec::new();
    let mut i: usize = 0;
    while i < v.len()
        invariant
            i <= v@.len(),
            r@ == v@.subrange(0, i as int),
        decreases v@.len() - i,
    {
        r.push(v[i]);
        proof {
            assert(r@ =~= v@.subrange(0, i as int + 1));
        }
        i = i + 1;
    }
    proof {
        assert(v@.subrange(0, v@.len() as int) =~= v@);
    }
    r
}


/// The larger of two numbers.
pub open spec fn smax(a: int, b: int) -> int {
    if a > b {
        a
    } else {
        b
    }
}

/// A valid bounds triple: nonnegative, within the dimension limit.
pub open spec fn dims_ok(w: int, h: int, c: int) -> bool {
    0 <= w <= MAX_DIM && 0 <= h <= MAX_DIM && 0 <= c <= MAX_DIM
}

/// The bounds of a linear group from its children's accumulated extents:
/// widths add, the tallest ascent and deepest descent set the height, and
/// the shared baseline sits at the tallest ascent.
pub open spec fn spec_group_dims(tx: int, mt: int, mb: int) -> Option<(int, int, int)> {
    if dims_ok(tx, mt + mb, mt) {
        Some((tx, mt + mb, mt))
    } else {
        None
    }
}

/// The bounds of a fraction from its operands' bounds: the wider operand
/// plus padding on both sides; the operands stacked with one padding
/// between; the baseline at half the padding below the upper operand.
pub open spec fn spec_fraction_dims(ax: int, ay: int, bx: int, by: int, pad: int) -> Option<
    (int, int, int),
> {
    let w = smax(ax, bx) + 2 * pad;
    let h = ay + by + pad;
    let c = ay + pad / 2;
    if dims_ok(w, h, c) {
        Some((w, h, c))
    } else {
        None
    }
}

/// The bounds of a node with a raised script only: the script sits to the
/// right, raised by a fixed share of its own height; the inner content and
/// its baseline move down by the raise.
pub open spec fn spec_super_dims(ax: int, ay: int, ac: int, bx: int, by: int) -> Option<
    (int, int, int),
> {
    let yoff = by * crate::consts::SUPERSCRIPT_Y_OFFSET_CENTI / 100;
    let w = ax + bx;
    let h = smax(ay + yoff, by);
    let c = ac + yoff;
    if dims_ok(w, h, c) {
        Some((w, h, c))
    } else {
        None
    }
}

/// The bounds of a node with a lowered script only, by symmetry with the
/// raised case: the script's bottom extends below the inner content by the
/// same fixed share of its height; the inner content and baseline stay.
pub open spec fn spec_subscript_dims(ax: int, ay: int, ac: int, bx: int, by: int) -> Option<
    (int, int, int),
> {
    let drop = by * crate::consts::SUPERSCRIPT_Y_OFFSET_CENTI / 100;
    let script_top = if ay + drop >= by {
        ay + drop - by
    } else {
        0
    };
    let w = ax + bx;
    let h = smax(ay, script_top + by);
    let c = ac;
    if dims_ok(w, h, c) {
        Some((w, h, c))
    } else {
        None
    }
}

/// The bounds of a node with both scripts: the raise of the upper script
/// and the drop of the lower combine the two single-script budgets.
pub open spec fn spec_both_dims(
    ax: int,
    ay: int,
    ac: int,
    ux: int,
    uy: int,
    lx: int,
    ly: int,
) -> Option<(int, int, int)> {
    let up_off = uy * crate::consts::SUPERSCRIPT_Y_OFFSET_CENTI / 100;
    let drop = ly * crate::consts::SUPERSCRIPT_Y_OFFSET_CENTI / 100;
    let low_top = if up_off + ay + drop >= ly {
        up_off + ay + drop - ly
    } else {
        0
    };
    let w = ax + smax(ux, lx);
    let h = smax(smax(up_off + ay, uy), low_top + ly);
    let c = ac + up_off;
    if dims_ok(w, h, c) {
        Some((w, h, c))
    } else {
        None
    }
}

/// The bounds of one leaf: the next answer's text bounds, consuming one
/// answer; nothing when the answers are exhausted.
pub open spec fn spec_leaf_bounds(
    runs: Seq<Seq<GlyphV>>,
    idx: int,
    scale: int,
    pad_centi: int,
    off_centi: int,
) -> Option<((int, int, int), int)> {
    if 0 <= idx < runs.len() {
        match spec_text_bounds(runs[idx], scale, pad_centi, off_centi) {
            Some(d) => Some((d, idx + 1)),
            None => None,
        }
    } else {
        None
    }
}

/// Combines one child's bounds with the accumulated bounds of the children
/// after it: widths add (within the limit), ascents and descents take the
/// maximum.
pub open spec fn group_cons(w: int, h: int, c: int, rest: Option<(int, int, int, int)>) -> Option<
    (int, int, int, int),
> {
    match rest {
        None => None,
        Some((tx, mt, mb, k)) => {
            if w + tx <= MAX_DIM {
                Some((w + tx, smax(c, mt), smax(h - c, mb), k))
            } else {
                None
            }
        },
    }
}

/// Pairs measured dimensions with the next answer index.
pub open spec fn with_next(d: Option<(int, int, int)>, k: int) -> Option<((int, int, int), int)> {
    match d {
        Some(t) => Some((t, k)),
        None => None,
    }
}

/// The measured bounds `(width, height, baseline)` of an expression and the
/// index of the next unconsumed font-service answer; nothing when an answer
/// is missing or malformed, or a dimension exceeds the limit.  Scale
/// propagates top-down, shrunk for fraction operands and scripts; the
/// divider bar thickness alone reads the global scale.
pub open spec fn spec_bounds(
    e: crate::element::ElemV,
    global: int,
    scale: int,
    runs: Seq<Seq<GlyphV>>,
    idx: int,
) -> Option<((int, int, int), int)>
    decreases e, 1int,
{
    match e {
        crate::element::ElemV::LinearGroup(children) => {
            match spec_bounds_list(children, global, scale, runs, idx) {
                None => None,
                Some((tx, mt, mb, j)) => with_next(spec_group_dims(tx, mt, mb), j),
            }
        },
        crate::element::ElemV::Integer(_) => spec_leaf_bounds(
            runs,
            idx,
            scale,
            crate::consts::TEXT_X_PADDING_CENTI as int,
            crate::consts::TEXT_OFFSET_CENTI as int,
        ),
        crate::element::ElemV::Decimal(_) => spec_leaf_bounds(
            runs,
            idx,
            scale,
            crate::consts::TEXT_X_PADDING_CENTI as int,
            crate::consts::TEXT_OFFSET_CENTI as int,
        ),
        crate::element::ElemV::Text(_) => spec_leaf_bounds(
            runs,
            idx,
            scale,
            crate::consts::TEXT_X_PADDING_CENTI as int,
            crate::consts::TEXT_OFFSET_CENTI as int,
        ),
        crate::element::ElemV::Plus => spec_leaf_bounds(
            runs,
            idx,
            scale,
            crate::consts::OPERATOR_X_PADDING_CENTI as int,
            crate::consts::PLUS_YOFFSET_CENTI as int,
        ),
        crate::element::ElemV::Minus => spec_leaf_bounds(
            runs,
            idx,
            scale,
            crate::consts::OPERATOR_X_PADDING_CENTI as int,
            crate::consts::MINUS_YOFFSET_CENTI as int,
        ),
        crate::element::ElemV::Equals => spec_leaf_bounds(
            runs,
            idx,
            scale,
            crate::consts::OPERATOR_X_PADDING_CENTI as int,
            crate::consts::EQUALS_YOFFSET_CENTI as int,
        ),
        crate::element::ElemV::PlusMinus => spec_leaf_bounds(
            runs,
            idx,
            scale,
            crate::consts::OPERATOR_X_PADDING_CENTI as int,
            crate::consts::PLUS_MINUS_YOFFSET_CENTI as int,
        ),
        crate::element::ElemV::Fraction { upper, lower } => {
            let sub_scale = scale * crate::consts::FRACTION_SCALE_CENTI / 100;
            let pad = scale * crate::consts::FRACTION_PADDING_CENTI / 100;
            match spec_bounds(*upper, global, sub_scale, runs, idx) {
                None => None,
                Some(((ax, ay, uc), j)) => match spec_bounds(*lower, global, sub_scale, runs, j) {
                    None => None,
                    Some(((bx, by, lc), k)) => with_next(
                        spec_fraction_dims(ax, ay, bx, by, pad),
                        k,
                    ),
                },
            }
        },
        crate::element::ElemV::SuperSub { inner, upper, lower } => {
            match spec_bounds(*inner, global, scale, runs, idx) {
                None => None,
                Some(((ax, ay, ac), j)) => {
                    let sub_scale = scale * crate::consts::SUPERSCRIPT_SCALE_CENTI / 100;
                    match (upper, lower) {
                        (None, None) => Some(((ax, ay, ac), j)),
                        (Some(u), None) => {
                            match spec_bounds(*u, global, sub_scale, runs, j) {
                                None => None,
                                Some(((bx, by, bc), k)) => with_next(
                                    spec_super_dims(ax, ay, ac, bx, by),
                                    k,
                                ),
                            }
                        },
                        (None, Some(l)) => {
                            match spec_bounds(*l, global, sub_scale, runs, j) {
                                None => None,
                                Some(((bx, by, bc), k)) => with_next(
                                    spec_subscript_dims(ax, ay, ac, bx, by),
                                    k,
                                ),
                            }
                        },
                        (Some(u), Some(l)) => {
                            match spec_bounds(*u, global, sub_scale, runs, j) {
                                None => None,
                                Some(((ux, uy, uc2), k)) => {
                                    match spec_bounds(*l, global, sub_scale, runs, k) {
                                        None => None,
                                        Some(((lx, ly, lc2), m)) => with_next(
                                            spec_both_dims(ax, ay, ac, ux, uy, lx, ly),
                                            m,
                                        ),
                                    }
                                },
                            }
                        },
                    }
                },
            }
        },
    }
}

/// The accumulated bounds of a child list, left to right: total width,
/// greatest ascent, greatest descent, and the next unconsumed answer.
pub open spec fn spec_bounds_list(
    children: Seq<crate::element::ElemV>,
    global: int,
    scale: int,
    runs: Seq<Seq<GlyphV>>,
    idx: int,
) -> Option<(int, int, int, int)>
    decreases children, 0int,
{
    if children.len() == 0 {
        Some((0, 0, 0, idx))
    } else {
        match spec_bounds(children[0], global, scale, runs, idx) {
            None => None,
            Some(((w, h, c), j)) => group_cons(
                w,
                h,
                c,
                spec_bounds_list(children.drop_first(), global, scale, runs, j),
            ),
        }
    }
}

/// Measured bounds are valid: nonnegative and within the dimension limit.
pub proof fn lemma_bounds_wf(
    e: crate::element::ElemV,
    global: int,
    scale: int,
    runs: Seq<Seq<GlyphV>>,
    idx: int,
)
    ensures
        match spec_bounds(e, global, scale, runs, idx) {
            Some(((w, h, c), j)) => dims_ok(w, h, c),
            None => true,
        },
    decreases e, 1int,
{
    match e {
        crate::element::ElemV::SuperSub { inner, upper, lower } => {
            if upper is None && lower is None {
                lemma_bounds_wf(*inner, global, scale, runs, idx);
            }
        },
        _ => {},
    }
}

/// Accumulated child bounds are nonnegative, and the total width stays
/// within the dimension limit.
pub proof fn lemma_bounds_list_wf(
    children: Seq<crate::element::ElemV>,
    global: int,
    scale: int,
    runs: Seq<Seq<GlyphV>>,
    idx: int,
)
    ensures
        match spec_bounds_list(children, global, scale, runs, idx) {
            Some((tx, mt, mb, k)) => 0 <= tx <= MAX_DIM && 0 <= mt && 0 <= mb,
            None => true,
        },
    decreases children, 0int,
{
    if children.len() > 0 {
        lemma_bounds_wf(children[0], global, scale, runs, idx);
        if spec_bounds(children[0], global, scale, runs, idx) is Some {
            let j = spec_bounds(children[0], global, scale, runs, idx)->Some_0.1;
            lemma_bounds_list_wf(children.drop_first(), global, scale, runs, j);
        }
    }
}

/// The measured dimensions recorded at a tree's root are exactly the
/// expression's measured bounds.
pub open spec fn tree_dims_match(
    t: LayoutTree,
    e: crate::element::ElemV,
    global: int,
    scale: int,
    runs: Seq<Seq<GlyphV>>,
    idx: int,
) -> bool {
    match spec_bounds(e, global, scale, runs, idx) {
        Some(((w, h, c), j)) => t.spec_width() as int == w && t.spec_height() as int == h
            && t.spec_center() as int == c,
        None => false,
    }
}

/// A leaf's layout is exactly its answer's glyph sheets behind the leaf's
/// padding.
pub open spec fn leaf_tree_model(
    t: LayoutTree,
    runs: Seq<Seq<GlyphV>>,
    idx: int,
    scale: int,
    pad_centi: int,
) -> bool {
    &&& 0 <= idx < runs.len()
    &&& leaf_parts_exact(t, runs[idx], scale * pad_centi / 100)
}

/// The layout tree an expression measures to, part by part: leaf glyph
/// sheets at their pen positions, group children at their running offsets on
/// the shared baseline, fraction operands around the centered seam with the
/// divider bar, and scripts at their raised or dropped offsets.  Together
/// with `tree_dims_match` at every node, this determines the tree, and so
/// (through `spec_render`) every rendered pixel.
pub open spec fn tree_models(
    t: LayoutTree,
    e: crate::element::ElemV,
    global: int,
    scale: int,
    runs: Seq<Seq<GlyphV>>,
    idx: int,
) -> bool
    decreases e, 1int,
{
    tree_dims_match(t, e, global, scale, runs, idx) && (match e {
        crate::element::ElemV::LinearGroup(children) => group_tree_model(
            t,
            e,
            global,
            scale,
            runs,
            idx,
        ),
        crate::element::ElemV::Integer(_) => leaf_tree_model(
            t,
            runs,
            idx,
            scale,
            crate::consts::TEXT_X_PADDING_CENTI as int,
        ),
        crate::element::ElemV::Decimal(_) => leaf_tree_model(
            t,
            runs,
            idx,
            scale,
            crate::consts::TEXT_X_PADDING_CENTI as int,
        ),
        crate::element::ElemV::Text(_) => leaf_tree_model(
            t,
            runs,
            idx,
            scale,
            crate::consts::TEXT_X_PADDING_CENTI as int,
        ),
        crate::element::ElemV::Plus => leaf_tree_model(
            t,
            runs,
            idx,
            scale,
            crate::consts::OPERATOR_X_PADDING_CENTI as int,
        ),
        crate::element::ElemV::Minus => leaf_tree_model(
            t,
            runs,
            idx,
            scale,
            crate::consts::OPERATOR_X_PADDING_CENTI as int,
        ),
        crate::element::ElemV::Equals => leaf_tree_model(
            t,
            runs,
            idx,
            scale,
            crate::consts::OPERATOR_X_PADDING_CENTI as int,
        ),
        crate::element::ElemV::PlusMinus => leaf_tree_model(
            t,
            runs,
            idx,
            scale,
            crate::consts::OPERATOR_X_PADDING_CENTI as int,
        ),
        crate::element::ElemV::Fraction { upper, lower } => fraction_tree_model(
            t,
            e,
            global,
            scale,
            runs,
            idx,
        ),
        crate::element::ElemV::SuperSub { inner, upper, lower } => supersub_tree_model(
            t,
            e,
            global,
            scale,
            runs,
            idx,
        ),
    })
}

/// A group's layout holds one placed part per child, at the running
/// horizontal offsets on the shared baseline.
pub open spec fn group_tree_model(
    t: LayoutTree,
    e: crate::element::ElemV,
    global: int,
    scale: int,
    runs: Seq<Seq<GlyphV>>,
    idx: int,
) -> bool
    decreases e, 0int,
{
    &&& e is LinearGroup
    &&& t is Composite
    &&& group_parts_model(
        t->Composite_parts@,
        e->LinearGroup_0,
        global,
        scale,
        runs,
        idx,
        0,
        t->Composite_center as int,
    )
}

/// A fraction's layout holds its operands around the centered seam and the
/// full-width divider bar at the seam, in the global line thickness.
pub open spec fn fraction_tree_model(
    t: LayoutTree,
    e: crate::element::ElemV,
    global: int,
    scale: int,
    runs: Seq<Seq<GlyphV>>,
    idx: int,
) -> bool
    decreases e, 0int,
{
    &&& e is Fraction
    &&& ({
        let sub_scale = scale * crate::consts::FRACTION_SCALE_CENTI / 100;
        let pad = scale * crate::consts::FRACTION_PADDING_CENTI / 100;
        match spec_bounds(*e->Fraction_upper, global, sub_scale, runs, idx) {
            None => false,
            Some(((ax, ay, uc), j)) => match spec_bounds(
                *e->Fraction_lower,
                global,
                sub_scale,
                runs,
                j,
            ) {
                None => false,
                Some(((bx, by, lc), k)) => {
                    &&& t is Composite
                    &&& t->Composite_parts@.len() == 3
                    &&& ({
                        let p0 = t->Composite_parts@[0];
                        let p1 = t->Composite_parts@[1];
                        let p2 = t->Composite_parts@[2];
                        &&& p0 is Placed
                        &&& p0->Placed_y == 0
                        &&& tree_models(p0->Placed_node, *e->Fraction_upper, global, sub_scale, runs, idx)
                        &&& p1 is Placed
                        &&& p1->Placed_y as int == ay + pad
                        &&& tree_models(p1->Placed_node, *e->Fraction_lower, global, sub_scale, runs, j)
                        &&& (if ax > bx {
                            p0->Placed_x as int == pad && p1->Placed_x as int == pad + (ax - bx)
                                / 2
                        } else {
                            p0->Placed_x as int == pad + (bx - ax) / 2 && p1->Placed_x as int
                                == pad
                        })
                        &&& p2 is Bar
                        &&& p2->Bar_x0 == 0
                        &&& p2->Bar_y0 as int == ay + pad
                        &&& p2->Bar_x1 == t.spec_width()
                        &&& p2->Bar_y1 as int == ay + pad
                        &&& p2->Bar_thickness as int == global
                            * crate::consts::LINE_WIDTH_CENTI as int / 100
                        &&& p2->Bar_color == 255u8
                    })
                },
            },
        }
    })
}

/// A scripted node's layout: the inner content and its scripts at the raised
/// or dropped offsets of the script geometry; with neither script, the inner
/// content's own layout stands unchanged.
pub open spec fn supersub_tree_model(
    t: LayoutTree,
    e: crate::element::ElemV,
    global: int,
    scale: int,
    runs: Seq<Seq<GlyphV>>,
    idx: int,
) -> bool
    decreases e, 0int,
{
    &&& e is SuperSub
    &&& ({
        match spec_bounds(*e->SuperSub_inner, global, scale, runs, idx) {
            None => false,
            Some(((ax, ay, ac), j)) => {
                let sub_scale = scale * crate::consts::SUPERSCRIPT_SCALE_CENTI / 100;
                match (e->SuperSub_upper, e->SuperSub_lower) {
                    (None, None) => tree_models(t, *e->SuperSub_inner, global, scale, runs, idx),
                    (Some(u), None) => {
                        match spec_bounds(*u, global, sub_scale, runs, j) {
                            None => false,
                            Some(((bx, by, bc), k)) => {
                                let yoff = by * crate::consts::SUPERSCRIPT_Y_OFFSET_CENTI / 100;
                                &&& t is Composite
                                &&& t->Composite_parts@.len() == 2
                                &&& ({
                                    let p0 = t->Composite_parts@[0];
                                    let p1 = t->Composite_parts@[1];
                                    &&& p0 is Placed
                                    &&& p0->Placed_x == 0
                                    &&& p0->Placed_y as int == yoff
                                    &&& tree_models(
                                        p0->Placed_node,
                                        *e->SuperSub_inner,
                                        global,
                                        scale,
                                        runs,
                                        idx,
                                    )
                                    &&& p1 is Placed
                                    &&& p1->Placed_x as int == ax
                                    &&& p1->Placed_y == 0
                                    &&& tree_models(p1->Placed_node, *u, global, sub_scale, runs, j)
                                })
                            },
                        }
                    },
                    (None, Some(l)) => {
                        match spec_bounds(*l, global, sub_scale, runs, j) {
                            None => false,
                            Some(((bx, by, bc), k)) => {
                                let drop = by * crate::consts::SUPERSCRIPT_Y_OFFSET_CENTI / 100;
                                let script_top = if ay + drop >= by {
                                    ay + drop - by
                                } else {
                                    0
                                };
                                &&& t is Composite
                                &&& t->Composite_parts@.len() == 2
                                &&& ({
                                    let p0 = t->Composite_parts@[0];
                                    let p1 = t->Composite_parts@[1];
                                    &&& p0 is Placed
                                    &&& p0->Placed_x == 0
                                    &&& p0->Placed_y == 0
                                    &&& tree_models(
                                        p0->Placed_node,
                                        *e->SuperSub_inner,
                                        global,
                                        scale,
                                        runs,
                                        idx,
                                    )
                                    &&& p1 is Placed
                                    &&& p1->Placed_x as int == ax
                                    &&& p1->Placed_y as int == script_top
                                    &&& tree_models(p1->Placed_node, *l, global, sub_scale, runs, j)
                                })
                            },
                        }
                    },
                    (Some(u), Some(l)) => {
                        match spec_bounds(*u, global, sub_scale, runs, j) {
                            None => false,
                            Some(((ux, uy, uc2), k)) => {
                                match spec_bounds(*l, global, sub_scale, runs, k) {
                                    None => false,
                                    Some(((lx, ly, lc2), m)) => {
                                        let up_off = uy
                                            * crate::consts::SUPERSCRIPT_Y_OFFSET_CENTI / 100;
                                        let drop = ly * crate::consts::SUPERSCRIPT_Y_OFFSET_CENTI
                                            / 100;
                                        let low_top = if up_off + ay + drop >= ly {
                                            up_off + ay + drop - ly
                                        } else {
                                            0
                                        };
                                        &&& t is Composite
                                        &&& t->Composite_parts@.len() == 3
                                        &&& ({
                                            let p0 = t->Composite_parts@[0];
                                            let p1 = t->Composite_parts@[1];
                                            let p2 = t->Composite_parts@[2];
                                            &&& p0 is Placed
                                            &&& p0->Placed_x == 0
                                            &&& p0->Placed_y as int == up_off
                                            &&& tree_models(
                                                p0->Placed_node,
                                                *e->SuperSub_inner,
                                                global,
                                                scale,
                                                runs,
                                                idx,
                                            )
                                            &&& p1 is Placed
                                            &&& p1->Placed_x as int == ax
                                            &&& p1->Placed_y == 0
                                            &&& tree_models(
                                                p1->Placed_node,
                                                *u,
                                                global,
                                                sub_scale,
                                                runs,
                                                j,
                                            )
                                            &&& p2 is Placed
                                            &&& p2->Placed_x as int == ax
                                            &&& p2->Placed_y as int == low_top
                                            &&& tree_models(
                                                p2->Placed_node,
                                                *l,
                                                global,
                                                sub_scale,
                                                runs,
                                                k,
                                            )
                                        })
                                    },
                                }
                            },
                        }
                    },
                }
            },
        }
    })
}

/// The placed parts of a linear group, child by child:/// The placed parts of a linear group, child by child: each child's tree
/// models its expression, stands at the running horizontal offset, and hangs
/// from the shared baseline.
pub open spec fn group_parts_model(
    parts: Seq<LayoutPart>,
    children: Seq<crate::element::ElemV>,
    global: int,
    scale: int,
    runs: Seq<Seq<GlyphV>>,
    idx: int,
    xoff: int,
    mintop: int,
) -> bool
    decreases children, 0int,
{
    if children.len() == 0 {
        parts.len() == 0
    } else {
        match spec_bounds(children[0], global, scale, runs, idx) {
            None => false,
            Some(((w, h, c), j)) => {
                &&& parts.len() > 0
                &&& parts[0] is Placed
                &&& parts[0]->Placed_x as int == xoff
                &&& parts[0]->Placed_y as int == mintop - c
                &&& tree_models(parts[0]->Placed_node, children[0], global, scale, runs, idx)
                &&& group_parts_model(
                    parts.drop_first(),
                    children.drop_first(),
                    global,
                    scale,
                    runs,
                    j,
                    xoff + w,
                    mintop,
                )
            },
        }
    }
}

/// Lifts already-accumulated group extents over the extents of the
/// remaining children.
pub open spec fn lift_group(atx: int, amt: int, amb: int, rest: Option<(int, int, int, int)>)
    -> Option<(int, int, int, int)> {
    match rest {
        None => None,
        Some((tx, mt, mb, k)) => {
            if atx + tx <= MAX_DIM {
                Some((atx + tx, smax(amt, mt), smax(amb, mb), k))
            } else {
                None
            }
        },
    }
}

/// Accumulating one more child on the left commutes with combining it into
/// the remaining children's extents.
proof fn lemma_lift_group_step(
    atx: int,
    amt: int,
    amb: int,
    w: int,
    h: int,
    c: int,
    rest: Option<(int, int, int, int)>,
)
    requires
        0 <= atx,
        0 <= w,
    ensures
        lift_group(atx, amt, amb, group_cons(w, h, c, rest)) == lift_group(
            atx + w,
            smax(amt, c),
            smax(amb, h - c),
            rest,
        ),
{
}

/// The facts gathered for child `j` of a group, measured left to right:
/// its bounds at its starting answer index chain into the next child's
/// start, its horizontal offset chains by its width, and its tree models
/// it.  `n` is the number of children gathered so far, `end_idx` and
/// `end_x` the state after the last of them.
pub open spec fn group_child_fact(
    children: Seq<crate::element::ElemV>,
    kids: Seq<LayoutTree>,
    idxs: Seq<usize>,
    xs: Seq<usize>,
    ws: Seq<usize>,
    hs: Seq<usize>,
    cs: Seq<usize>,
    global: int,
    scale: int,
    runs: Seq<Seq<GlyphV>>,
    n: int,
    end_idx: int,
    end_x: int,
    j: int,
) -> bool {
    &&& spec_bounds(children[j], global, scale, runs, idxs[j] as int) == Some(
        (
            (ws[j] as int, hs[j] as int, cs[j] as int),
            if j + 1 < n {
                idxs[j + 1] as int
            } else {
                end_idx
            },
        ),
    )
    &&& xs[j] as int + ws[j] as int == (if j + 1 < n {
        xs[j + 1] as int
    } else {
        end_x
    })
    &&& tree_models(kids[j], children[j], global, scale, runs, idxs[j] as int)
}

/// Assembles a group's placement relation from the per-child facts gathered
/// left to right, with each part standing at its recorded offsets on the
/// shared baseline.
proof fn lemma_group_parts_model(
    parts: Seq<LayoutPart>,
    children: Seq<crate::element::ElemV>,
    global: int,
    scale: int,
    runs: Seq<Seq<GlyphV>>,
    idxs: Seq<usize>,
    xs: Seq<usize>,
    ws: Seq<usize>,
    hs: Seq<usize>,
    cs: Seq<usize>,
    nodes: Seq<LayoutTree>,
    end_idx: int,
    end_x: int,
    mintop: int,
)
    requires
        parts.len() == children.len(),
        idxs.len() == children.len(),
        xs.len() == children.len(),
        ws.len() == children.len(),
        hs.len() == children.len(),
        cs.len() == children.len(),
        nodes.len() == children.len(),
        forall|j: int|
            0 <= j < children.len() ==> #[trigger] group_child_fact(
                children,
                nodes,
                idxs,
                xs,
                ws,
                hs,
                cs,
                global,
                scale,
                runs,
                children.len() as int,
                end_idx,
                end_x,
                j,
            ),
        forall|j: int|
            0 <= j < children.len() ==> {
                let p = #[trigger] parts[j];
                &&& p is Placed
                &&& p->Placed_x == xs[j]
                &&& p->Placed_y as int == mintop - cs[j] as int
                &&& p->Placed_node == nodes[j]
            },
    ensures
        group_parts_model(
            parts,
            children,
            global,
            scale,
            runs,
            if children.len() > 0 {
                idxs[0] as int
            } else {
                end_idx
            },
            if children.len() > 0 {
                xs[0] as int
            } else {
                end_x
            },
            mintop,
        ),
    decreases children,
{
    if children.len() > 0 {
        let n = children.len() as int;
        assert(group_child_fact(
            children,
            nodes,
            idxs,
            xs,
            ws,
            hs,
            cs,
            global,
            scale,
            runs,
            n,
            end_idx,
            end_x,
            0,
        ));
        assert(parts[0] is Placed && parts[0]->Placed_x == xs[0] && parts[0]->Placed_y as int
            == mintop - cs[0] as int && parts[0]->Placed_node == nodes[0]);
        assert forall|j: int| 0 <= j < n - 1 implies #[trigger] group_child_fact(
            children.drop_first(),
            nodes.drop_first(),
            idxs.drop_first(),
            xs.drop_first(),
            ws.drop_first(),
            hs.drop_first(),
            cs.drop_first(),
            global,
            scale,
            runs,
            n - 1,
            end_idx,
            end_x,
            j,
        ) by {
            assert(group_child_fact(
                children,
                nodes,
                idxs,
                xs,
                ws,
                hs,
                cs,
                global,
                scale,
                runs,
                n,
                end_idx,
                end_x,
                j + 1,
            ));
            assert(children.drop_first()[j] == children[j + 1]);
            assert(nodes.drop_first()[j] == nodes[j + 1]);
            assert(idxs.drop_first()[j] == idxs[j + 1]);
            assert(xs.drop_first()[j] == xs[j + 1]);
            assert(ws.drop_first()[j] == ws[j + 1]);
            assert(hs.drop_first()[j] == hs[j + 1]);
            assert(cs.drop_first()[j] == cs[j + 1]);
            if j + 2 < n {
                assert(idxs.drop_first()[j + 1] == idxs[j + 2]);
                assert(xs.drop_first()[j + 1] == xs[j + 2]);
            }
        }
        assert forall|j: int| 0 <= j < n - 1 implies {
            let p = #[trigger] parts.drop_first()[j];
            &&& p is Placed
            &&& p->Placed_x == xs.drop_first()[j]
            &&& p->Placed_y as int == mintop - cs.drop_first()[j] as int
            &&& p->Placed_node == nodes.drop_first()[j]
        } by {
            assert(parts.drop_first()[j] == parts[j + 1]);
            assert(parts[j + 1] is Placed && parts[j + 1]->Placed_x == xs[j + 1] && parts[j
                + 1]->Placed_y as int == mintop - cs[j + 1] as int && parts[j + 1]->Placed_node
                == nodes[j + 1]);
        }
        lemma_group_parts_model(
            parts.drop_first(),
            children.drop_first(),
            global,
            scale,
            runs,
            idxs.drop_first(),
            xs.drop_first(),
            ws.drop_first(),
            hs.drop_first(),
            cs.drop_first(),
            nodes.drop_first(),
            end_idx,
            end_x,
            mintop,
        );
    }
}

/// Every glyph's right edge stays within the run's horizontal extent.
proof fn lemma_raw_width_bound(run: Seq<GlyphV>, i: int)
    requires
        0 <= i < run.len(),
    ensures
        run[i].x + run[i].width <= raw_width(run),
    decreases run.len(),
{
    if i == run.len() - 1 {
        assert(run.last() == run[i]);
    } else {
        lemma_raw_width_bound(run.drop_last(), i);
        assert(run.drop_last()[i] == run[i]);
    }
}

/// Every glyph's bottom edge stays within the run's vertical extent.
proof fn lemma_raw_height_bound(run: Seq<GlyphV>, i: int)
    requires
        0 <= i < run.len(),
    ensures
        run[i].y + run[i].height <= raw_height(run),
    decreases run.len(),
{
    if i == run.len() - 1 {
        assert(run.last() == run[i]);
    } else {
        lemma_raw_height_bound(run.drop_last(), i);
        assert(run.drop_last()[i] == run[i]);
    }
}

/// A scale-relative quantity in hundredths: `scale * centi / 100`, which
/// never exceeds the scale itself.
fn scale_frac(scale: u32, centi: u32) -> (r: u32)
    requires
        centi <= 100,
    ensures
        r as int == scale as int * centi as int / 100,
        r <= scale,
{
    proof {
        assert((scale as int) * (centi as int) <= 0x6400000000) by (nonlinear_arith)
            requires
                scale <= 0xFFFFFFFFu32,
                centi <= 100,
        ;
    }
    let prod: u64 = (scale as u64) * (centi as u64);
    let q: u64 = prod / 100;
    proof {
        assert(prod <= scale as int * 100) by (nonlinear_arith)
            requires
                prod == scale as int * centi as int,
                centi <= 100,
                scale >= 0,
        ;
        vstd::arithmetic::div_mod::lemma_div_is_ordered(
            prod as int,
            scale as int * 100,
            100,
        );
        vstd::arithmetic::div_mod::lemma_div_multiples_vanish(scale as int, 100);
    }
    q as u32
}

/// A text leaf's layout holds exactly its run's glyphs: one coverage sheet
/// per glyph, placed at the glyph's pen position behind the leading padding.
pub open spec fn leaf_parts_exact(t: LayoutTree, run: Seq<GlyphV>, pad: int) -> bool {
    &&& t is Composite
    &&& t->Composite_parts@.len() == run.len()
    &&& forall|i: int|
        0 <= i < run.len() ==> {
            let p = #[trigger] t->Composite_parts@[i];
            &&& p is Placed
            &&& p->Placed_x == run[i].x + pad
            &&& p->Placed_y == run[i].y
            &&& p->Placed_node is Sheet
            &&& p->Placed_node->Sheet_width == run[i].width
            &&& p->Placed_node->Sheet_height == run[i].height
            &&& p->Placed_node->Sheet_data@ == run[i].coverage
        }
}

/// Builds the layout of one text leaf from its shaped glyph run: the glyphs
/// placed behind the leading padding, on a surface of the measured bounds.
fn build_text_leaf(run: &Vec<ShapedGlyph>, scale: u32, pad_centi: u32, off_centi: u32) -> (r:
    Option<LayoutTree>)
    requires
        pad_centi <= 100,
        off_centi <= 100,
    ensures
        ({
            let spec = spec_text_bounds(
                run_view(run@),
                scale as int,
                pad_centi as int,
                off_centi as int,
            );
            match r {
                Some(t) => {
                    &&& t.wf()
                    &&& t.spec_center() <= MAX_DIM
                    &&& spec == Some(
                        (t.spec_width() as int, t.spec_height() as int, t.spec_center() as int),
                    )
                    &&& leaf_parts_exact(t, run_view(run@), scale as int * pad_centi as int / 100)
                },
                None => spec is None,
            }
        }),
{
    let ghost rv = run_view(run@);
    let mut mw: u64 = 0;
    let mut mh: u64 = 0;
    let mut i: usize = 0;
    while i < run.len()
        invariant
            i <= run@.len(),
            rv == run_view(run@),
            rv.len() == run@.len(),
            mw == raw_width(rv.take(i as int)),
            mh == raw_height(rv.take(i as int)),
            mw <= 0x200000000,
            mh <= 0x200000000,
            forall|j: int|
                0 <= j < i ==> (#[trigger] rv[j]).coverage.len() == rv[j].width * rv[j].height,
        decreases run@.len() - i,
    {
        let g = &run[i];
        proof {
            assert(rv[i as int] == run@[i as int]@);
        }
        proof {
            assert((g.width as int) * (g.height as int) < 0x10000000000000000) by (nonlinear_arith)
                requires
                    g.width <= 0xFFFFFFFFu32,
                    g.height <= 0xFFFFFFFFu32,
            ;
        }
        let area: u64 = (g.width as u64) * (g.height as u64);
        if (g.coverage.len() as u64) != area {
            proof {
                assert(!run_ok(rv));
            }
            return None;
        }
        let right: u64 = (g.x as u64) + (g.width as u64);
        let bottom: u64 = (g.y as u64) + (g.height as u64);
        if right > mw {
            mw = right;
        }
        if bottom > mh {
            mh = bottom;
        }
        proof {
            assert(rv.take(i as int + 1).drop_last() =~= rv.take(i as int));
            assert(rv.take(i as int + 1).last() == rv[i as int]);
        }
        i = i + 1;
    }
    proof {
        assert(rv.take(rv.len() as int) =~= rv);
        assert(run_ok(rv));
    }
    let pad: u32 = scale_frac(scale, pad_centi);
    let off: u32 = scale_frac(scale, off_centi);
    let w64: u64 = mw + 2 * (pad as u64);
    let c64: u64 = mh / 2 + (off as u64);
    if w64 > (MAX_DIM as u64) || mh > (MAX_DIM as u64) || c64 > (MAX_DIM as u64) {
        proof {
            assert(off as int == off_centi as int * scale as int / 100) by (nonlinear_arith)
                requires
                    off as int == scale as int * off_centi as int / 100,
            ;
        }
        return None;
    }
    proof {
        assert(off as int == off_centi as int * scale as int / 100) by (nonlinear_arith)
            requires
                off as int == scale as int * off_centi as int / 100,
        ;
    }
    let width: usize = w64 as usize;
    let height: usize = mh as usize;
    let center: usize = c64 as usize;
    let mut parts: Vec<LayoutPart> = Vec::new();
    let mut k: usize = 0;
    while k < run.len()
        invariant
            k <= run@.len(),
            rv == run_view(run@),
            rv.len() == run@.len(),
            run_ok(rv),
            width <= MAX_DIM,
            height <= MAX_DIM,
            raw_width(rv) + 2 * (pad as int) == width,
            raw_height(rv) == height,
            parts@.len() == k,
            forall|j: int|
                0 <= j < parts@.len() ==> part_wf(
                    #[trigger] parts@[j],
                    width as int,
                    height as int,
                ),
            forall|j: int|
                0 <= j < parts@.len() ==> {
                    let p = #[trigger] parts@[j];
                    &&& p is Placed
                    &&& p->Placed_x == rv[j].x + (pad as int)
                    &&& p->Placed_y == rv[j].y
                    &&& p->Placed_node is Sheet
                    &&& p->Placed_node->Sheet_width == rv[j].width
                    &&& p->Placed_node->Sheet_height == rv[j].height
                    &&& p->Placed_node->Sheet_data@ == rv[j].coverage
                },
        decreases run@.len() - k,
    {
        let g = &run[k];
        proof {
            assert(rv[k as int] == run@[k as int]@);
            lemma_raw_width_bound(rv, k as int);
            lemma_raw_height_bound(rv, k as int);
            assert(rv[k as int].coverage.len() == rv[k as int].width * rv[k as int].height);
            lemma_dim_product((g.width as u64) as usize, (g.height as u64) as usize);
        }
        let gw: usize = g.width as usize;
        let gh: usize = g.height as usize;
        let data = copy_bytes(&g.coverage);
        let sheet = LayoutTree::Sheet { width: gw, height: gh, data };
        let gx: usize = (g.x as u64 + pad as u64) as usize;
        let gy: usize = g.y as usize;
        let ghost pre_parts = parts@;
        parts.push(LayoutPart::Placed { x: gx, y: gy, node: sheet });
        k = k + 1;
    }
    proof {
        assert(pad as int == scale as int * pad_centi as int / 100);
    }
    Some(LayoutTree::Composite { width, height, center, parts })
}

/// The bounds and layout of the next leaf, consuming one font-service
/// answer.
fn measure_leaf(
    runs: &Vec<Vec<ShapedGlyph>>,
    idx: usize,
    scale: u32,
    pad_centi: u32,
    off_centi: u32,
) -> (r: Option<(LayoutTree, usize)>)
    requires
        pad_centi <= 100,
        off_centi <= 100,
    ensures
        ({
            let spec = spec_leaf_bounds(
                runs_view(runs@),
                idx as int,
                scale as int,
                pad_centi as int,
                off_centi as int,
            );
            match r {
                Some((t, j)) => {
                    &&& t.wf()
                    &&& t.spec_center() <= MAX_DIM
                    &&& spec == Some(
                        (
                            (
                                t.spec_width() as int,
                                t.spec_height() as int,
                                t.spec_center() as int,
                            ),
                            j as int,
                        ),
                    )
                    &&& leaf_parts_exact(
                        t,
                        runs_view(runs@)[idx as int],
                        scale as int * pad_centi as int / 100,
                    )
                },
                None => spec is None,
            }
        }),
{
    if idx >= runs.len() {
        return None;
    }
    proof {
        assert(runs_view(runs@)[idx as int] == run_view(runs@[idx as int]@));
    }
    match build_text_leaf(&runs[idx], scale, pad_centi, off_centi) {
        Some(t) => Some((t, idx + 1)),
        None => None,
    }
}

impl LayoutTree {
    /// The recorded width, as a value.
    pub fn width(&self) -> (r: usize)
        ensures
            r == self.spec_width(),
    {
        match self {
            LayoutTree::Sheet { width, .. } => *width,
            LayoutTree::Composite { width, .. } => *width,
        }
    }

    /// The recorded height, as a value.
    pub fn height(&self) -> (r: usize)
        ensures
            r == self.spec_height(),
    {
        match self {
            LayoutTree::Sheet { height, .. } => *height,
            LayoutTree::Composite { height, .. } => *height,
        }
    }

    /// The recorded baseline offset, as a value.
    pub fn center(&self) -> (r: usize)
        ensures
            r == self.spec_center(),
    {
        match self {
            LayoutTree::Sheet { .. } => 0,
            LayoutTree::Composite { center, .. } => *center,
        }
    }
}

/// Assembles a fraction's surface from its measured operands: the wider
/// operand sets the width, the narrower one is centered against it, and a
/// full-width divider bar of the global line thickness sits at the seam.
fn combine_fraction(ut: LayoutTree, lt: LayoutTree, global: u32, scale: u32) -> (r: Option<
    LayoutTree,
>)
    requires
        ut.wf(),
        lt.wf(),
    ensures
        ({
            let pad = scale as int * crate::consts::FRACTION_PADDING_CENTI as int / 100;
            let spec = spec_fraction_dims(
                ut.spec_width() as int,
                ut.spec_height() as int,
                lt.spec_width() as int,
                lt.spec_height() as int,
                pad,
            );
            match r {
                Some(t) => {
                    &&& t.wf()
                    &&& t.spec_center() <= MAX_DIM
                    &&& spec == Some(
                        (t.spec_width() as int, t.spec_height() as int, t.spec_center() as int),
                    )
                    &&& t is Composite
                    &&& t->Composite_parts@.len() == 3
                    &&& ({
                        let p0 = t->Composite_parts@[0];
                        let p1 = t->Composite_parts@[1];
                        let p2 = t->Composite_parts@[2];
                        &&& p0 is Placed
                        &&& p0->Placed_y == 0
                        &&& p0->Placed_node == ut
                        &&& p1 is Placed
                        &&& p1->Placed_y as int == ut.spec_height() + pad
                        &&& p1->Placed_node == lt
                        &&& (if ut.spec_width() > lt.spec_width() {
                            p0->Placed_x as int == pad && p1->Placed_x as int == pad + (
                            ut.spec_width() - lt.spec_width()) / 2
                        } else {
                            p0->Placed_x as int == pad + (lt.spec_width() - ut.spec_width()) / 2
                                && p1->Placed_x as int == pad
                        })
                        &&& p2 is Bar
                        &&& p2->Bar_x0 == 0
                        &&& p2->Bar_y0 as int == ut.spec_height() + pad
                        &&& p2->Bar_x1 == t.spec_width()
                        &&& p2->Bar_y1 as int == ut.spec_height() + pad
                        &&& p2->Bar_thickness as int == global as int
                            * crate::consts::LINE_WIDTH_CENTI as int / 100
                        &&& p2->Bar_color == 255u8
                    })
                },
                None => spec is None,
            }
        }),
{
    let ax = ut.width();
    let ay = ut.height();
    let bx = lt.width();
    let by = lt.height();
    let pad32 = scale_frac(scale, crate::consts::FRACTION_PADDING_CENTI);
    let pad64: u64 = pad32 as u64;
    let wide: u64 = if ax > bx {
        ax as u64
    } else {
        bx as u64
    };
    let w64: u64 = wide + 2 * pad64;
    let h64: u64 = (ay as u64) + (by as u64) + pad64;
    let c64: u64 = (ay as u64) + pad64 / 2;
    if w64 > (MAX_DIM as u64) || h64 > (MAX_DIM as u64) || c64 > (MAX_DIM as u64) {
        return None;
    }
    let width = w64 as usize;
    let height = h64 as usize;
    let center = c64 as usize;
    let pad = pad32 as usize;
    let bar_y: usize = ay + pad;
    let thickness = scale_frac(global, crate::consts::LINE_WIDTH_CENTI);
    let mut parts: Vec<LayoutPart> = Vec::new();
    if ax > bx {
        parts.push(LayoutPart::Placed { x: pad, y: 0, node: ut });
        parts.push(LayoutPart::Placed { x: pad + (ax - bx) / 2, y: bar_y, node: lt });
    } else {
        parts.push(LayoutPart::Placed { x: pad + (bx - ax) / 2, y: 0, node: ut });
        parts.push(LayoutPart::Placed { x: pad, y: bar_y, node: lt });
    }
    parts.push(
        LayoutPart::Bar { x0: 0, y0: bar_y, x1: width, y1: bar_y, thickness, color: 255 },
    );
    Some(LayoutTree::Composite { width, height, center, parts })
}

/// Assembles a node with a raised script: the script to the right at the
/// top, the inner content moved down by the raise.
fn combine_super(it: LayoutTree, st: LayoutTree) -> (r: Option<LayoutTree>)
    requires
        it.wf(),
        st.wf(),
        it.spec_center() <= MAX_DIM,
    ensures
        ({
            let spec = spec_super_dims(
                it.spec_width() as int,
                it.spec_height() as int,
                it.spec_center() as int,
                st.spec_width() as int,
                st.spec_height() as int,
            );
            let yoff = st.spec_height() as int * crate::consts::SUPERSCRIPT_Y_OFFSET_CENTI as int
                / 100;
            match r {
                Some(t) => {
                    &&& t.wf()
                    &&& t.spec_center() <= MAX_DIM
                    &&& spec == Some(
                        (t.spec_width() as int, t.spec_height() as int, t.spec_center() as int),
                    )
                    &&& t is Composite
                    &&& t->Composite_parts@.len() == 2
                    &&& ({
                        let p0 = t->Composite_parts@[0];
                        let p1 = t->Composite_parts@[1];
                        &&& p0 is Placed
                        &&& p0->Placed_x == 0
                        &&& p0->Placed_y as int == yoff
                        &&& p0->Placed_node == it
                        &&& p1 is Placed
                        &&& p1->Placed_x == it.spec_width()
                        &&& p1->Placed_y == 0
                        &&& p1->Placed_node == st
                    })
                },
                None => spec is None,
            }
        }),
{
    let ax = it.width();
    let ay = it.height();
    let ac = it.center();
    let bx = st.width();
    let by = st.height();
    proof {
        assert((by as int) * (crate::consts::SUPERSCRIPT_Y_OFFSET_CENTI as int) <= 0x140000)
            by (nonlinear_arith)
            requires
                by <= 0x8000,
        ;
    }
    let yoff64: u64 = (by as u64) * (crate::consts::SUPERSCRIPT_Y_OFFSET_CENTI as u64) / 100;
    let w64: u64 = (ax as u64) + (bx as u64);
    let h64: u64 = if (ay as u64) + yoff64 > (by as u64) {
        (ay as u64) + yoff64
    } else {
        by as u64
    };
    let c64: u64 = (ac as u64) + yoff64;
    if w64 > (MAX_DIM as u64) || h64 > (MAX_DIM as u64) || c64 > (MAX_DIM as u64) {
        return None;
    }
    let width = w64 as usize;
    let height = h64 as usize;
    let center = c64 as usize;
    let yoff = yoff64 as usize;
    let mut parts: Vec<LayoutPart> = Vec::new();
    parts.push(LayoutPart::Placed { x: 0, y: yoff, node: it });
    parts.push(LayoutPart::Placed { x: ax, y: 0, node: st });
    Some(LayoutTree::Composite { width, height, center, parts })
}

/// Assembles a node with a lowered script, by symmetry with the raised
/// case: the script to the right, its bottom extending below the inner
/// content by the drop.
fn combine_subscript(it: LayoutTree, st: LayoutTree) -> (r: Option<LayoutTree>)
    requires
        it.wf(),
        st.wf(),
    ensures
        ({
            let spec = spec_subscript_dims(
                it.spec_width() as int,
                it.spec_height() as int,
                it.spec_center() as int,
                st.spec_width() as int,
                st.spec_height() as int,
            );
            let ay = it.spec_height() as int;
            let by = st.spec_height() as int;
            let drop = by * crate::consts::SUPERSCRIPT_Y_OFFSET_CENTI as int / 100;
            let script_top = if ay + drop >= by {
                ay + drop - by
            } else {
                0
            };
            match r {
                Some(t) => {
                    &&& t.wf()
                    &&& t.spec_center() <= MAX_DIM
                    &&& spec == Some(
                        (t.spec_width() as int, t.spec_height() as int, t.spec_center() as int),
                    )
                    &&& t is Composite
                    &&& t->Composite_parts@.len() == 2
                    &&& ({
                        let p0 = t->Composite_parts@[0];
                        let p1 = t->Composite_parts@[1];
                        &&& p0 is Placed
                        &&& p0->Placed_x == 0
                        &&& p0->Placed_y == 0
                        &&& p0->Placed_node == it
                        &&& p1 is Placed
                        &&& p1->Placed_x == it.spec_width()
                        &&& p1->Placed_y as int == script_top
                        &&& p1->Placed_node == st
                    })
                },
                None => spec is None,
            }
        }),
{
    let ax = it.width();
    let ay = it.height();
    let ac = it.center();
    let bx = st.width();
    let by = st.height();
    proof {
        assert((by as int) * (crate::consts::SUPERSCRIPT_Y_OFFSET_CENTI as int) <= 0x140000)
            by (nonlinear_arith)
            requires
                by <= 0x8000,
        ;
    }
    let drop64: u64 = (by as u64) * (crate::consts::SUPERSCRIPT_Y_OFFSET_CENTI as u64) / 100;
    let script_top64: u64 = if (ay as u64) + drop64 >= (by as u64) {
        (ay as u64) + drop64 - (by as u64)
    } else {
        0
    };
    let w64: u64 = (ax as u64) + (bx as u64);
    let h64: u64 = if (ay as u64) > script_top64 + (by as u64) {
        ay as u64
    } else {
        script_top64 + (by as u64)
    };
    if w64 > (MAX_DIM as u64) || h64 > (MAX_DIM as u64) || ac > MAX_DIM {
        return None;
    }
    let width = w64 as usize;
    let height = h64 as usize;
    let script_top = script_top64 as usize;
    let mut parts: Vec<LayoutPart> = Vec::new();
    parts.push(LayoutPart::Placed { x: 0, y: 0, node: it });
    parts.push(LayoutPart::Placed { x: ax, y: script_top, node: st });
    Some(LayoutTree::Composite { width, height, center: ac, parts })
}

/// Assembles a node with both scripts: the upper raised as in the raised
/// case, the lower dropped below the moved inner content.
fn combine_both(it: LayoutTree, st: LayoutTree, bt: LayoutTree) -> (r: Option<LayoutTree>)
    requires
        it.wf(),
        st.wf(),
        bt.wf(),
        it.spec_center() <= MAX_DIM,
    ensures
        ({
            let spec = spec_both_dims(
                it.spec_width() as int,
                it.spec_height() as int,
                it.spec_center() as int,
                st.spec_width() as int,
                st.spec_height() as int,
                bt.spec_width() as int,
                bt.spec_height() as int,
            );
            let ay = it.spec_height() as int;
            let uy = st.spec_height() as int;
            let ly = bt.spec_height() as int;
            let up_off = uy * crate::consts::SUPERSCRIPT_Y_OFFSET_CENTI as int / 100;
            let drop = ly * crate::consts::SUPERSCRIPT_Y_OFFSET_CENTI as int / 100;
            let low_top = if up_off + ay + drop >= ly {
                up_off + ay + drop - ly
            } else {
                0
            };
            match r {
                Some(t) => {
                    &&& t.wf()
                    &&& t.spec_center() <= MAX_DIM
                    &&& spec == Some(
                        (t.spec_width() as int, t.spec_height() as int, t.spec_center() as int),
                    )
                    &&& t is Composite
                    &&& t->Composite_parts@.len() == 3
                    &&& ({
                        let p0 = t->Composite_parts@[0];
                        let p1 = t->Composite_parts@[1];
                        let p2 = t->Composite_parts@[2];
                        &&& p0 is Placed
                        &&& p0->Placed_x == 0
                        &&& p0->Placed_y as int == up_off
                        &&& p0->Placed_node == it
                        &&& p1 is Placed
                        &&& p1->Placed_x == it.spec_width()
                        &&& p1->Placed_y == 0
                        &&& p1->Placed_node == st
                        &&& p2 is Placed
                        &&& p2->Placed_x == it.spec_width()
                        &&& p2->Placed_y as int == low_top
                        &&& p2->Placed_node == bt
                    })
                },
                None => spec is None,
            }
        }),
{
    let ax = it.width();
    let ay = it.height();
    let ac = it.center();
    let ux = st.width();
    let uy = st.height();
    let lx = bt.width();
    let ly = bt.height();
    proof {
        assert((uy as int) * (crate::consts::SUPERSCRIPT_Y_OFFSET_CENTI as int) <= 0x140000
            && (ly as int) * (crate::consts::SUPERSCRIPT_Y_OFFSET_CENTI as int) <= 0x140000)
            by (nonlinear_arith)
            requires
                uy <= 0x8000,
                ly <= 0x8000,
        ;
    }
    let up_off64: u64 = (uy as u64) * (crate::consts::SUPERSCRIPT_Y_OFFSET_CENTI as u64) / 100;
    let drop64: u64 = (ly as u64) * (crate::consts::SUPERSCRIPT_Y_OFFSET_CENTI as u64) / 100;
    let low_top64: u64 = if up_off64 + (ay as u64) + drop64 >= (ly as u64) {
        up_off64 + (ay as u64) + drop64 - (ly as u64)
    } else {
        0
    };
    let wide: u64 = if ux > lx {
        ux as u64
    } else {
        lx as u64
    };
    let w64: u64 = (ax as u64) + wide;
    let top_budget: u64 = if up_off64 + (ay as u64) > (uy as u64) {
        up_off64 + (ay as u64)
    } else {
        uy as u64
    };
    let h64: u64 = if top_budget > low_top64 + (ly as u64) {
        top_budget
    } else {
        low_top64 + (ly as u64)
    };
    let c64: u64 = (ac as u64) + up_off64;
    if w64 > (MAX_DIM as u64) || h64 > (MAX_DIM as u64) || c64 > (MAX_DIM as u64) {
        return None;
    }
    let width = w64 as usize;
    let height = h64 as usize;
    let center = c64 as usize;
    let up_off = up_off64 as usize;
    let low_top = low_top64 as usize;
    let mut parts: Vec<LayoutPart> = Vec::new();
    parts.push(LayoutPart::Placed { x: 0, y: up_off, node: it });
    parts.push(LayoutPart::Placed { x: ax, y: 0, node: st });
    parts.push(LayoutPart::Placed { x: ax, y: low_top, node: bt });
    Some(LayoutTree::Composite { width, height, center, parts })
}

/// Measures the children of a linear group left to right: widths add along
/// the baseline, the tallest ascent and deepest descent set the height, and
/// every child is placed at its running offset with its baseline on the
/// shared one.
#[verifier::rlimit(100)]
#[verifier::spinoff_prover]
fn measure_group(
    v: &Vec<crate::element::KElement>,
    global: u32,
    scale: u32,
    runs: &Vec<Vec<ShapedGlyph>>,
    idx: usize,
) -> (r: Option<(LayoutTree, usize)>)
    ensures
        ({
            let spec = spec_bounds(
                crate::element::ElemV::LinearGroup(crate::element::elems_view(v@)),
                global as int,
                scale as int,
                runs_view(runs@),
                idx as int,
            );
            match r {
                Some((t, j)) => {
                    &&& t.wf()
                    &&& t.spec_center() <= MAX_DIM
                    &&& spec == Some(
                        (
                            (
                                t.spec_width() as int,
                                t.spec_height() as int,
                                t.spec_center() as int,
                            ),
                            j as int,
                        ),
                    )
                    &&& tree_models(
                        t,
                        crate::element::ElemV::LinearGroup(crate::element::elems_view(v@)),
                        global as int,
                        scale as int,
                        runs_view(runs@),
                        idx as int,
                    )
                },
                None => spec is None,
            }
        }),
    decreases v@,
{
    let ghost childrenv = crate::element::elems_view(v@);
    let ghost mut idxs: Seq<usize> = Seq::empty();
    let mut kids: Vec<LayoutTree> = Vec::new();
    let mut xs: Vec<usize> = Vec::new();
    let mut ws: Vec<usize> = Vec::new();
    let mut hs: Vec<usize> = Vec::new();
    let mut cs: Vec<usize> = Vec::new();
    let mut totalx: usize = 0;
    let mut mintop: usize = 0;
    let mut maxbot: usize = 0;
    let mut cur: usize = idx;
    let mut i: usize = 0;
    proof {
        assert(childrenv.skip(0) =~= childrenv);
        lemma_bounds_list_wf(
            childrenv,
            global as int,
            scale as int,
            runs_view(runs@),
            idx as int,
        );
    }
    while i < v.len()
        invariant
            i <= v@.len(),
            childrenv == crate::element::elems_view(v@),
            childrenv.len() == v@.len(),
            kids@.len() == i,
            xs@.len() == i,
            ws@.len() == i,
            hs@.len() == i,
            cs@.len() == i,
            idxs.len() == i,
            totalx <= MAX_DIM,
            mintop <= MAX_DIM,
            maxbot <= MAX_DIM,
            i == 0 ==> cur == idx && totalx == 0,
            i > 0 ==> idxs[0] == idx && xs@[0] == 0,
            spec_bounds_list(
                childrenv,
                global as int,
                scale as int,
                runs_view(runs@),
                idx as int,
            ) == lift_group(
                totalx as int,
                mintop as int,
                maxbot as int,
                spec_bounds_list(
                    childrenv.skip(i as int),
                    global as int,
                    scale as int,
                    runs_view(runs@),
                    cur as int,
                ),
            ),
            forall|j: int|
                0 <= j < i ==> (#[trigger] kids@[j]).wf() && kids@[j].spec_width() == ws@[j]
                    && kids@[j].spec_height() == hs@[j],
            forall|j: int|
                0 <= j < i ==> (#[trigger] xs@[j]) + ws@[j] <= totalx && cs@[j] <= mintop
                    && hs@[j] <= maxbot + cs@[j],
            forall|j: int|
                0 <= j < i ==> #[trigger] group_child_fact(
                    childrenv,
                    kids@,
                    idxs,
                    xs@,
                    ws@,
                    hs@,
                    cs@,
                    global as int,
                    scale as int,
                    runs_view(runs@),
                    i as int,
                    cur as int,
                    totalx as int,
                    j,
                ),
        decreases v@.len() - i,
    {
        let ghost tail = childrenv.skip(i as int);
        proof {
            assert(tail[0] == childrenv[i as int]);
            assert(childrenv[i as int] == crate::element::elem_view(v@[i as int]));
            assert(tail.drop_first() =~= childrenv.skip(i as int + 1));
        }
        let sub = crate::element::KElement::measure(&v[i], global, scale, runs, cur);
        match sub {
            None => {
                return None;
            },
            Some((t, j)) => {
                proof {
                    lemma_bounds_list_wf(
                        childrenv.skip(i as int + 1),
                        global as int,
                        scale as int,
                        runs_view(runs@),
                        j as int,
                    );
                }
                let w = t.width();
                let h = t.height();
                let c = t.center();
                proof {
                    lemma_lift_group_step(
                        totalx as int,
                        mintop as int,
                        maxbot as int,
                        w as int,
                        h as int,
                        c as int,
                        spec_bounds_list(
                            childrenv.skip(i as int + 1),
                            global as int,
                            scale as int,
                            runs_view(runs@),
                            j as int,
                        ),
                    );
                }
                if w > MAX_DIM - totalx {
                    return None;
                }
                let ghost pre_xs = xs@;
                let ghost pre_ws = ws@;
                let ghost pre_hs = hs@;
                let ghost pre_cs = cs@;
                let ghost pre_kids = kids@;
                let ghost pre_idxs = idxs;
                let ghost pre_totalx = totalx;
                let ghost pre_mintop = mintop;
                let ghost pre_maxbot = maxbot;
                let ghost pre_cur = cur;
                let ghost pre_i = i as int;
                proof {
                    idxs = idxs.push(cur);
                }
                xs.push(totalx);
                ws.push(w);
                hs.push(h);
                cs.push(c);
                kids.push(t);
                totalx = totalx + w;
                if c > mintop {
                    mintop = c;
                }
                if h > c && h - c > maxbot {
                    maxbot = h - c;
                }
                cur = j;
                i = i + 1;
                proof {
                    assert forall|j2: int| 0 <= j2 < i as int implies (#[trigger] xs@[j2])
                        + ws@[j2] <= totalx && cs@[j2] <= mintop && hs@[j2] <= maxbot
                        + cs@[j2] by {
                        if j2 < pre_i {
                            assert(xs@[j2] == pre_xs[j2]);
                            assert(ws@[j2] == pre_ws[j2]);
                            assert(hs@[j2] == pre_hs[j2]);
                            assert(cs@[j2] == pre_cs[j2]);
                            assert(pre_xs[j2] + pre_ws[j2] <= pre_totalx);
                        }
                    }
                    assert forall|j2: int| 0 <= j2 < i as int implies (#[trigger] kids@[j2]).wf()
                        && kids@[j2].spec_width() == ws@[j2] && kids@[j2].spec_height()
                        == hs@[j2] by {
                        if j2 < pre_i {
                            assert(kids@[j2] == pre_kids[j2]);
                            assert(pre_kids[j2].wf() && pre_kids[j2].spec_width() == pre_ws[j2]
                                && pre_kids[j2].spec_height() == pre_hs[j2]);
                        }
                    }
                    assert forall|j2: int| 0 <= j2 < i as int implies #[trigger] group_child_fact(
                        childrenv,
                        kids@,
                        idxs,
                        xs@,
                        ws@,
                        hs@,
                        cs@,
                        global as int,
                        scale as int,
                        runs_view(runs@),
                        i as int,
                        cur as int,
                        totalx as int,
                        j2,
                    ) by {
                        if j2 < pre_i {
                            assert(group_child_fact(
                                childrenv,
                                pre_kids,
                                pre_idxs,
                                pre_xs,
                                pre_ws,
                                pre_hs,
                                pre_cs,
                                global as int,
                                scale as int,
                                runs_view(runs@),
                                pre_i,
                                pre_cur as int,
                                pre_totalx as int,
                                j2,
                            ));
                            assert(kids@[j2] == pre_kids[j2]);
                            assert(idxs[j2] == pre_idxs[j2]);
                            assert(xs@[j2] == pre_xs[j2]);
                            assert(ws@[j2] == pre_ws[j2]);
                            assert(hs@[j2] == pre_hs[j2]);
                            assert(cs@[j2] == pre_cs[j2]);
                            if j2 + 1 < pre_i {
                                assert(idxs[j2 + 1] == pre_idxs[j2 + 1]);
                                assert(xs@[j2 + 1] == pre_xs[j2 + 1]);
                            } else {
                                assert(idxs[j2 + 1] == pre_cur);
                                assert(xs@[j2 + 1] == pre_totalx);
                            }
                        } else {
                            assert(idxs[j2] == pre_cur);
                            assert(xs@[j2] == pre_totalx);
                            assert(ws@[j2] == w);
                            assert(hs@[j2] == h);
                            assert(cs@[j2] == c);
                            assert(kids@[j2] == t);
                        }
                    }
                }
            },
        }
    }
    proof {
        assert(childrenv.skip(i as int) =~= Seq::<crate::element::ElemV>::empty());
    }
    if mintop > MAX_DIM - maxbot {
        return None;
    }
    let height: usize = mintop + maxbot;
    let ghost kids_all = kids@;
    let total_kids: usize = kids.len();
    let mut parts: Vec<LayoutPart> = Vec::new();
    let mut p: usize = 0;
    while kids.len() > 0
        invariant
            total_kids == kids_all.len(),
            p <= total_kids,
            p + kids@.len() == kids_all.len(),
            kids@ =~= kids_all.skip(p as int),
            kids_all.len() == xs@.len(),
            kids_all.len() == ws@.len(),
            kids_all.len() == hs@.len(),
            kids_all.len() == cs@.len(),
            kids_all.len() == idxs.len(),
            kids_all.len() == childrenv.len(),
            childrenv == crate::element::elems_view(v@),
            totalx <= MAX_DIM,
            height <= MAX_DIM,
            height == mintop + maxbot,
            kids_all.len() == 0 ==> cur == idx && totalx == 0,
            kids_all.len() > 0 ==> idxs[0] == idx && xs@[0] == 0,
            forall|j: int|
                0 <= j < kids_all.len() ==> (#[trigger] kids_all[j]).wf()
                    && kids_all[j].spec_width() == ws@[j] && kids_all[j].spec_height() == hs@[j],
            forall|j: int|
                0 <= j < kids_all.len() ==> (#[trigger] xs@[j]) + ws@[j] <= totalx && cs@[j]
                    <= mintop && hs@[j] <= maxbot + cs@[j],
            forall|j: int|
                0 <= j < kids_all.len() ==> #[trigger] group_child_fact(
                    childrenv,
                    kids_all,
                    idxs,
                    xs@,
                    ws@,
                    hs@,
                    cs@,
                    global as int,
                    scale as int,
                    runs_view(runs@),
                    kids_all.len() as int,
                    cur as int,
                    totalx as int,
                    j,
                ),
            parts@.len() == p,
            forall|j: int|
                0 <= j < parts@.len() ==> part_wf(
                    #[trigger] parts@[j],
                    totalx as int,
                    height as int,
                ),
            forall|j: int|
                0 <= j < p ==> {
                    let pp = #[trigger] parts@[j];
                    &&& pp is Placed
                    &&& pp->Placed_x == xs@[j]
                    &&& pp->Placed_y as int == mintop - cs@[j] as int
                    &&& pp->Placed_node == kids_all[j]
                },
        decreases kids@.len(),
    {
        proof {
            assert(p < kids_all.len());
            assert(kids@[0] == kids_all[p as int]);
            assert(xs@[p as int] + ws@[p as int] <= totalx);
        }
        let t = kids.remove(0);
        let x = xs[p];
        proof {
            assert(cs@[p as int] <= mintop);
        }
        let y = mintop - cs[p];
        let ghost pre_parts = parts@;
        parts.push(LayoutPart::Placed { x, y, node: t });
        proof {
            assert(kids@ =~= kids_all.skip(p as int + 1));
            assert forall|j: int| 0 <= j < p as int + 1 implies {
                let pp = #[trigger] parts@[j];
                &&& pp is Placed
                &&& pp->Placed_x == xs@[j]
                &&& pp->Placed_y as int == mintop - cs@[j] as int
                &&& pp->Placed_node == kids_all[j]
            } by {
                if j < p as int {
                    assert(parts@[j] == pre_parts[j]);
                }
            }
        }
        p = p + 1;
    }
    proof {
        lemma_group_parts_model(
            parts@,
            childrenv,
            global as int,
            scale as int,
            runs_view(runs@),
            idxs,
            xs@,
            ws@,
            hs@,
            cs@,
            kids_all,
            cur as int,
            totalx as int,
            mintop as int,
        );
    }
    Some((LayoutTree::Composite { width: totalx, height, center: mintop, parts }, cur))
}

impl crate::element::KElement {
    /// Measures this expression at the given scale, consuming the font
    /// service's answers from `idx` on, and records the exact geometry in a
    /// well-formed layout tree whose dimensions are precisely the measured
    /// bounds.  Nothing when an answer is missing or malformed, or a
    /// dimension would exceed the limit.
    #[verifier::rlimit(100)]
    #[verifier::spinoff_prover]
    pub fn measure(
        &self,
        global: u32,
        scale: u32,
        runs: &Vec<Vec<ShapedGlyph>>,
        idx: usize,
    ) -> (r: Option<(LayoutTree, usize)>)
        ensures
            ({
                let spec = spec_bounds(
                    self@,
                    global as int,
                    scale as int,
                    runs_view(runs@),
                    idx as int,
                );
                match r {
                    Some((t, j)) => {
                        &&& t.wf()
                        &&& t.spec_center() <= MAX_DIM
                        &&& spec == Some(
                            (
                                (
                                    t.spec_width() as int,
                                    t.spec_height() as int,
                                    t.spec_center() as int,
                                ),
                                j as int,
                            ),
                        )
                        &&& tree_models(
                            t,
                            self@,
                            global as int,
                            scale as int,
                            runs_view(runs@),
                            idx as int,
                        )
                    },
                    None => spec is None,
                }
            }),
        decreases self,
    {
        match self {
            crate::element::KElement::Integer(_) => measure_leaf(
                runs,
                idx,
                scale,
                crate::consts::TEXT_X_PADDING_CENTI,
                crate::consts::TEXT_OFFSET_CENTI,
            ),
            crate::element::KElement::Decimal(_) => measure_leaf(
                runs,
                idx,
                scale,
                crate::consts::TEXT_X_PADDING_CENTI,
                crate::consts::TEXT_OFFSET_CENTI,
            ),
            crate::element::KElement::Text(_) => measure_leaf(
                runs,
                idx,
                scale,
                crate::consts::TEXT_X_PADDING_CENTI,
                crate::consts::TEXT_OFFSET_CENTI,
            ),
            crate::element::KElement::Plus => measure_leaf(
                runs,
                idx,
                scale,
                crate::consts::OPERATOR_X_PADDING_CENTI,
                crate::consts::PLUS_YOFFSET_CENTI,
            ),
            crate::element::KElement::Minus => measure_leaf(
                runs,
                idx,
                scale,
                crate::consts::OPERATOR_X_PADDING_CENTI,
                crate::consts::MINUS_YOFFSET_CENTI,
            ),
            crate::element::KElement::Equals => measure_leaf(
                runs,
                idx,
                scale,
                crate::consts::OPERATOR_X_PADDING_CENTI,
                crate::consts::EQUALS_YOFFSET_CENTI,
            ),
            crate::element::KElement::PlusMinus => measure_leaf(
                runs,
                idx,
                scale,
                crate::consts::OPERATOR_X_PADDING_CENTI,
                crate::consts::PLUS_MINUS_YOFFSET_CENTI,
            ),
            crate::element::KElement::LinearGroup(v) => {
                proof {
                    assert(decreases_to!(*self => self->LinearGroup_0));
                }
                measure_group(v, global, scale, runs, idx)
            },
            crate::element::KElement::Fraction { upper, lower } => {
                proof {
                    assert(decreases_to!(*self => self->Fraction_upper));
                    assert(decreases_to!(*self => self->Fraction_lower));
                }
                let sub_scale = scale_frac(scale, crate::consts::FRACTION_SCALE_CENTI);
                let first = Self::measure(&**upper, global, sub_scale, runs, idx);
                let (ut, j) = match first {
                    None => {
                        return None;
                    },
                    Some(pair) => pair,
                };
                let second = Self::measure(&**lower, global, sub_scale, runs, j);
                let (lt, k) = match second {
                    None => {
                        return None;
                    },
                    Some(pair) => pair,
                };
                match combine_fraction(ut, lt, global, scale) {
                    Some(t) => Some((t, k)),
                    None => None,
                }
            },
            crate::element::KElement::SuperSub { inner, upper, lower } => {
                proof {
                    assert(decreases_to!(*self => self->SuperSub_inner));
                }
                let first = Self::measure(&**inner, global, scale, runs, idx);
                let (it, j) = match first {
                    None => {
                        return None;
                    },
                    Some(pair) => pair,
                };
                let sub_scale = scale_frac(scale, crate::consts::SUPERSCRIPT_SCALE_CENTI);
                match (upper, lower) {
                    (None, None) => Some((it, j)),
                    (Some(u), None) => {
                        proof {
                            assert(decreases_to!(*self => self->SuperSub_upper));
                            assert(decreases_to!(self->SuperSub_upper => *u));
                        }
                        let second = Self::measure(&**u, global, sub_scale, runs, j);
                        let (st, k) = match second {
                            None => {
                                return None;
                            },
                            Some(pair) => pair,
                        };
                        match combine_super(it, st) {
                            Some(t) => Some((t, k)),
                            None => None,
                        }
                    },
                    (None, Some(l)) => {
                        proof {
                            assert(decreases_to!(*self => self->SuperSub_lower));
                            assert(decreases_to!(self->SuperSub_lower => *l));
                        }
                        let second = Self::measure(&**l, global, sub_scale, runs, j);
                        let (st, k) = match second {
                            None => {
                                return None;
                            },
                            Some(pair) => pair,
                        };
                        match combine_subscript(it, st) {
                            Some(t) => Some((t, k)),
                            None => None,
                        }
                    },
                    (Some(u), Some(l)) => {
                        proof {
                            assert(decreases_to!(*self => self->SuperSub_upper));
                            assert(decreases_to!(self->SuperSub_upper => *u));
                            assert(decreases_to!(*self => self->SuperSub_lower));
                            assert(decreases_to!(self->SuperSub_lower => *l));
                        }
                        let second = Self::measure(&**u, global, sub_scale, runs, j);
                        let (st, k) = match second {
                            None => {
                                return None;
                            },
                            Some(pair) => pair,
                        };
                        let third = Self::measure(&**l, global, sub_scale, runs, k);
                        let (bt, m) = match third {
                            None => {
                                return None;
                            },
                            Some(pair) => pair,
                        };
                        match combine_both(it, st, bt) {
                            Some(t) => Some((t, m)),
                            None => None,
                        }
                    },
                }
            },
        }
    }
}

/// The font-service requests of an expression's leaves, left to right, each
/// carrying the text, font and pixel size the leaf is measured with.
pub open spec fn spec_queries(e: crate::element::ElemV, scale: int) -> Seq<QueryV>
    decreases e, 1int,
{
    match e {
        crate::element::ElemV::LinearGroup(children) => spec_queries_list(children, scale),
        crate::element::ElemV::Integer(n) => seq![
            QueryV { text: spec_int_text(n), font_index: 0, px: scale },
        ],
        crate::element::ElemV::Decimal(t) => seq![QueryV { text: t, font_index: 0, px: scale }],
        crate::element::ElemV::Text(t) => seq![QueryV { text: t, font_index: 1, px: scale }],
        crate::element::ElemV::Plus => seq![QueryV { text: "+"@, font_index: 0, px: scale }],
        crate::element::ElemV::Minus => seq![QueryV { text: "-"@, font_index: 0, px: scale }],
        crate::element::ElemV::Equals => seq![QueryV { text: "="@, font_index: 0, px: scale }],
        crate::element::ElemV::PlusMinus => seq![
            QueryV { text: "±"@, font_index: 0, px: scale },
        ],
        crate::element::ElemV::Fraction { upper, lower } => {
            let sub_scale = scale * crate::consts::FRACTION_SCALE_CENTI / 100;
            spec_queries(*upper, sub_scale) + spec_queries(*lower, sub_scale)
        },
        crate::element::ElemV::SuperSub { inner, upper, lower } => {
            let sub_scale = scale * crate::consts::SUPERSCRIPT_SCALE_CENTI / 100;
            let ups = match upper {
                Some(u) => spec_queries(*u, sub_scale),
                None => seq![],
            };
            let lows = match lower {
                Some(l) => spec_queries(*l, sub_scale),
                None => seq![],
            };
            spec_queries(*inner, scale) + ups + lows
        },
    }
}

/// The font-service requests of a child list, left to right.
pub open spec fn spec_queries_list(children: Seq<crate::element::ElemV>, scale: int) -> Seq<
    QueryV,
>
    decreases children, 0int,
{
    if children.len() == 0 {
        seq![]
    } else {
        spec_queries(children[0], scale) + spec_queries_list(children.drop_first(), scale)
    }
}

/// Extending a prefix of the child list by one child appends that child's
/// requests.
proof fn lemma_queries_list_snoc(children: Seq<crate::element::ElemV>, i: int, scale: int)
    requires
        0 <= i < children.len(),
    ensures
        spec_queries_list(children.take(i + 1), scale) == spec_queries_list(
            children.take(i),
            scale,
        ) + spec_queries(children[i], scale),
    decreases i,
{
    if i == 0 {
        assert(children.take(1).drop_first() =~= Seq::<crate::element::ElemV>::empty());
        assert(children.take(1)[0] == children[0]);
        assert(children.take(0) =~= Seq::<crate::element::ElemV>::empty());
        assert(seq![] + spec_queries(children[0], scale) + Seq::<QueryV>::empty()
            =~= spec_queries(children[0], scale));
        assert(spec_queries(children[0], scale) + seq![] =~= spec_queries(children[0], scale));
        assert(Seq::<QueryV>::empty() + spec_queries(children[0], scale) =~= spec_queries(
            children[0],
            scale,
        ));
    } else {
        lemma_queries_list_snoc(children.drop_first(), i - 1, scale);
        assert(children.take(i + 1)[0] == children[0]);
        assert(children.take(i)[0] == children[0]);
        assert(children.take(i + 1).drop_first() =~= children.drop_first().take(i));
        assert(children.take(i).drop_first() =~= children.drop_first().take(i - 1));
        assert(children.drop_first()[i - 1] == children[i]);
        assert(spec_queries(children[0], scale) + (spec_queries_list(
            children.drop_first().take(i - 1),
            scale,
        ) + spec_queries(children[i], scale)) =~= (spec_queries(children[0], scale)
            + spec_queries_list(children.drop_first().take(i - 1), scale)) + spec_queries(
            children[i],
            scale,
        ));
    }
}

/// Collects this expression's font-service requests after those already
/// gathered.
fn collect_queries(
    e: &crate::element::KElement,
    scale: u32,
    out: &mut Vec<TextQuery>,
)
    ensures
        queries_view(final(out)@) == queries_view(old(out)@) + spec_queries(e@, scale as int),
    decreases e,
{
    let ghost base = queries_view(out@);
    match e {
        crate::element::KElement::Integer(n) => {
            let text = i64_to_string(*n);
            out.push(TextQuery { text, font_index: 0, px: scale });
            proof {
                assert(queries_view(out@) =~= base + spec_queries(e@, scale as int));
            }
        },
        crate::element::KElement::Decimal(t) => {
            out.push(TextQuery { text: t.clone(), font_index: 0, px: scale });
            proof {
                assert(queries_view(out@) =~= base + spec_queries(e@, scale as int));
            }
        },
        crate::element::KElement::Text(t) => {
            out.push(TextQuery { text: t.clone(), font_index: 1, px: scale });
            proof {
                assert(queries_view(out@) =~= base + spec_queries(e@, scale as int));
            }
        },
        crate::element::KElement::Plus => {
            out.push(TextQuery { text: String::from_str("+"), font_index: 0, px: scale });
            proof {
                assert(queries_view(out@) =~= base + spec_queries(e@, scale as int));
            }
        },
        crate::element::KElement::Minus => {
            out.push(TextQuery { text: String::from_str("-"), font_index: 0, px: scale });
            proof {
                assert(queries_view(out@) =~= base + spec_queries(e@, scale as int));
            }
        },
        crate::element::KElement::Equals => {
            out.push(TextQuery { text: String::from_str("="), font_index: 0, px: scale });
            proof {
                assert(queries_view(out@) =~= base + spec_queries(e@, scale as int));
            }
        },
        crate::element::KElement::PlusMinus => {
            out.push(TextQuery { text: String::from_str("±"), font_index: 0, px: scale });
            proof {
                assert(queries_view(out@) =~= base + spec_queries(e@, scale as int));
            }
        },
        crate::element::KElement::LinearGroup(v) => {
            let ghost childrenv = crate::element::elems_view(v@);
            let mut i: usize = 0;
            proof {
                assert(childrenv.take(0) =~= Seq::<crate::element::ElemV>::empty());
                assert(base + Seq::<QueryV>::empty() =~= base);
            }
            while i < v.len()
                invariant
                    i <= v@.len(),
                    *e is LinearGroup,
                    v@ == e->LinearGroup_0@,
                    childrenv == crate::element::elems_view(v@),
                    childrenv.len() == v@.len(),
                    queries_view(out@) == base + spec_queries_list(
                        childrenv.take(i as int),
                        scale as int,
                    ),
                decreases v@.len() - i,
            {
                proof {
                    assert(childrenv[i as int] == crate::element::elem_view(v@[i as int]));
                    assert(decreases_to!(*e => e->LinearGroup_0));
                    assert(decreases_to!(e->LinearGroup_0 => e->LinearGroup_0@));
                    assert(decreases_to!(e->LinearGroup_0@ => e->LinearGroup_0@[i as int]));
                    assert(v@[i as int] == e->LinearGroup_0@[i as int]);
                }
                let ghost pre = queries_view(out@);
                collect_queries(&v[i], scale, out);
                proof {
                    lemma_queries_list_snoc(childrenv, i as int, scale as int);
                    assert(base + (spec_queries_list(childrenv.take(i as int), scale as int)
                        + spec_queries(childrenv[i as int], scale as int)) =~= (base
                        + spec_queries_list(childrenv.take(i as int), scale as int))
                        + spec_queries(childrenv[i as int], scale as int));
                }
                i = i + 1;
            }
            proof {
                assert(childrenv.take(v@.len() as int) =~= childrenv);
            }
        },
        crate::element::KElement::Fraction { upper, lower } => {
            proof {
                assert(decreases_to!(*e => e->Fraction_upper));
                assert(decreases_to!(*e => e->Fraction_lower));
            }
            let sub_scale = scale_frac(scale, crate::consts::FRACTION_SCALE_CENTI);
            collect_queries(&**upper, sub_scale, out);
            collect_queries(&**lower, sub_scale, out);
            proof {
                assert(base + (spec_queries(upper@, sub_scale as int) + spec_queries(
                    lower@,
                    sub_scale as int,
                )) =~= (base + spec_queries(upper@, sub_scale as int)) + spec_queries(
                    lower@,
                    sub_scale as int,
                ));
            }
        },
        crate::element::KElement::SuperSub { inner, upper, lower } => {
            proof {
                assert(decreases_to!(*e => e->SuperSub_inner));
            }
            let sub_scale = scale_frac(scale, crate::consts::SUPERSCRIPT_SCALE_CENTI);
            collect_queries(&**inner, scale, out);
            let ghost ups: Seq<QueryV> = match upper {
                Some(u) => spec_queries(u@, sub_scale as int),
                None => seq![],
            };
            let ghost lows: Seq<QueryV> = match lower {
                Some(l) => spec_queries(l@, sub_scale as int),
                None => seq![],
            };
            match upper {
                Some(u) => {
                    proof {
                        assert(decreases_to!(*e => e->SuperSub_upper));
                        assert(decreases_to!(e->SuperSub_upper => *u));
                    }
                    collect_queries(&**u, sub_scale, out);
                },
                None => {
                    proof {
                        assert(queries_view(out@) + ups =~= queries_view(out@));
                    }
                },
            }
            match lower {
                Some(l) => {
                    proof {
                        assert(decreases_to!(*e => e->SuperSub_lower));
                        assert(decreases_to!(e->SuperSub_lower => *l));
                    }
                    collect_queries(&**l, sub_scale, out);
                },
                None => {
                    proof {
                        assert(queries_view(out@) + lows =~= queries_view(out@));
                    }
                },
            }
            proof {
                assert(base + (spec_queries(inner@, scale as int) + ups + lows) =~= ((base
                    + spec_queries(inner@, scale as int)) + ups) + lows);
            }
        },
    }
}

impl crate::element::KElement {
    /// The requests this expression's leaves make of the font service, in
    /// the left-to-right order in which measurement consumes the answers.
    pub fn leaf_queries(&self, scale: u32) -> (r: Vec<TextQuery>)
        ensures
            queries_view(r@) == spec_queries(self@, scale as int),
    {
        let mut out: Vec<TextQuery> = Vec::new();
        proof {
            assert(queries_view(out@) =~= Seq::<QueryV>::empty());
        }
        collect_queries(self, scale, &mut out);
        proof {
            assert(Seq::<QueryV>::empty() + spec_queries(self@, scale as int) =~= spec_queries(
                self@,
                scale as int,
            ));
        }
        out
    }

    /// The measured bounds `(width, height, baseline)` of a text leaf from
    /// its shaped glyph run, at the given scale with the given horizontal
    /// padding and vertical centering offset (both in hundredths of the
    /// scale).
    pub fn measure_text_bounds(
        run: &Vec<ShapedGlyph>,
        scale: u32,
        x_padding_centi: u32,
        center_offset_centi: u32,
    ) -> (r: Option<(usize, usize, usize)>)
        requires
            x_padding_centi <= 100,
            center_offset_centi <= 100,
        ensures
            ({
                let spec = spec_text_bounds(
                    run_view(run@),
                    scale as int,
                    x_padding_centi as int,
                    center_offset_centi as int,
                );
                match r {
                    Some((w, h, c)) => spec == Some((w as int, h as int, c as int)),
                    None => spec is None,
                }
            }),
    {
        match build_text_leaf(run, scale, x_padding_centi, center_offset_centi) {
            Some(t) => Some((t.width(), t.height(), t.center())),
            None => None,
        }
    }

    /// Renders a text leaf from its shaped glyph run: each glyph's coverage
    /// sheet composited at its pen position behind the leading padding, on a
    /// canvas of exactly the measured bounds.
    pub fn render_text_block(run: &Vec<ShapedGlyph>, scale: u32, x_padding_centi: u32) -> (r:
        Option<Bitmap>)
        requires
            x_padding_centi <= 100,
        ensures
            ({
                let spec = spec_text_bounds(
                    run_view(run@),
                    scale as int,
                    x_padding_centi as int,
                    0,
                );
                match r {
                    Some(b) => {
                        &&& b.wf()
                        &&& spec is Some
                        &&& b.width as int == spec->Some_0.0
                        &&& b.height as int == spec->Some_0.1
                        &&& exists|t: LayoutTree|
                            {
                                &&& #[trigger] leaf_parts_exact(
                                    t,
                                    run_view(run@),
                                    scale as int * x_padding_centi as int / 100,
                                )
                                &&& t.wf()
                                &&& t.spec_width() == b.width
                                &&& t.spec_height() == b.height
                                &&& b.data@ == spec_render(t)
                            }
                    },
                    None => spec is None,
                }
            }),
    {
        match build_text_leaf(run, scale, x_padding_centi, 0) {
            Some(t) => {
                let b = t.render();
                proof {
                    assert(leaf_parts_exact(
                        t,
                        run_view(run@),
                        scale as int * x_padding_centi as int / 100,
                    ) && t.wf() && t.spec_width() == b.width && t.spec_height() == b.height
                        && b.data@ == spec_render(t));
                }
                Some(b)
            },
            None => None,
        }
    }

    /// Renders a dedicated symbol leaf from its shaped glyph run, with
    /// operator padding.
    pub fn rasterize_symbol(&self, run: &Vec<ShapedGlyph>, scale: u32) -> (r: Option<Bitmap>)
        requires
            self is Plus || self is Minus || self is Equals || self is PlusMinus,
        ensures
            ({
                let spec = spec_text_bounds(
                    run_view(run@),
                    scale as int,
                    crate::consts::OPERATOR_X_PADDING_CENTI as int,
                    0,
                );
                match r {
                    Some(b) => {
                        &&& b.wf()
                        &&& spec is Some
                        &&& b.width as int == spec->Some_0.0
                        &&& b.height as int == spec->Some_0.1
                        &&& exists|t: LayoutTree|
                            {
                                &&& #[trigger] leaf_parts_exact(
                                    t,
                                    run_view(run@),
                                    scale as int
                                        * crate::consts::OPERATOR_X_PADDING_CENTI as int / 100,
                                )
                                &&& t.wf()
                                &&& b.data@ == spec_render(t)
                            }
                    },
                    None => spec is None,
                }
            }),
    {
        Self::render_text_block(run, scale, crate::consts::OPERATOR_X_PADDING_CENTI)
    }

    /// The measured bounds of a dedicated symbol leaf from its shaped glyph
    /// run, with operator padding and the symbol's own centering offset.
    pub fn get_symbol_bounds(&self, run: &Vec<ShapedGlyph>, scale: u32) -> (r: Option<
        (usize, usize, usize),
    >)
        requires
            self is Plus || self is Minus || self is Equals || self is PlusMinus,
        ensures
            ({
                let offc = if self is Equals {
                    crate::consts::EQUALS_YOFFSET_CENTI as int
                } else if self is Minus {
                    crate::consts::MINUS_YOFFSET_CENTI as int
                } else if self is PlusMinus {
                    crate::consts::PLUS_MINUS_YOFFSET_CENTI as int
                } else {
                    crate::consts::PLUS_YOFFSET_CENTI as int
                };
                let spec = spec_text_bounds(
                    run_view(run@),
                    scale as int,
                    crate::consts::OPERATOR_X_PADDING_CENTI as int,
                    offc,
                );
                match r {
                    Some((w, h, c)) => spec == Some((w as int, h as int, c as int)),
                    None => spec is None,
                }
            }),
    {
        let offc: u32 = match self {
            crate::element::KElement::Equals => crate::consts::EQUALS_YOFFSET_CENTI,
            crate::element::KElement::Minus => crate::consts::MINUS_YOFFSET_CENTI,
            crate::element::KElement::PlusMinus => crate::consts::PLUS_MINUS_YOFFSET_CENTI,
            _ => crate::consts::PLUS_YOFFSET_CENTI,
        };
        Self::measure_text_bounds(run, scale, crate::consts::OPERATOR_X_PADDING_CENTI, offc)
    }

    /// The measured bounds `(width, height, baseline)` of this expression at
    /// the given scale, from the font service's answers.
    pub fn get_bounds(&self, scale: u32, runs: &Vec<Vec<ShapedGlyph>>) -> (r: Option<
        (usize, usize, usize),
    >)
        ensures
            ({
                let spec = spec_bounds(self@, scale as int, scale as int, runs_view(runs@), 0);
                match r {
                    Some((w, h, c)) => spec is Some && spec->Some_0.0 == (
                        w as int,
                        h as int,
                        c as int,
                    ),
                    None => spec is None,
                }
            }),
    {
        match self.measure(scale, scale, runs, 0) {
            Some((t, _next)) => Some((t.width(), t.height(), t.center())),
            None => None,
        }
    }

    /// Measures and renders this expression at the given scale, from the
    /// font service's answers.  The canvas has exactly the measured
    /// dimensions — what `get_bounds` reports for the same expression, scale
    /// and answers — and its pixels are exactly the rendering of the layout
    /// tree that `tree_models` pins for this expression and these answers.
    pub fn rasterize(&self, scale: u32, runs: &Vec<Vec<ShapedGlyph>>) -> (r: Option<Bitmap>)
        ensures
            ({
                let spec = spec_bounds(self@, scale as int, scale as int, runs_view(runs@), 0);
                match r {
                    Some(b) => {
                        &&& b.wf()
                        &&& spec is Some
                        &&& b.width as int == spec->Some_0.0.0
                        &&& b.height as int == spec->Some_0.0.1
                        &&& exists|t: LayoutTree|
                            {
                                &&& #[trigger] tree_models(
                                    t,
                                    self@,
                                    scale as int,
                                    scale as int,
                                    runs_view(runs@),
                                    0,
                                )
                                &&& t.wf()
                                &&& b.data@ == spec_render(t)
                            }
                    },
                    None => spec is None,
                }
            }),
    {
        match self.measure(scale, scale, runs, 0) {
            Some((t, _next)) => {
                let b = t.render();
                proof {
                    assert(tree_models(
                        t,
                        self@,
                        scale as int,
                        scale as int,
                        runs_view(runs@),
                        0,
                    ) && t.wf() && b.data@ == spec_render(t));
                }
                Some(b)
            },
            None => None,
        }
    }
}

} // verus!
