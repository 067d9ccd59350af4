//! The pixel compositor and the render planner: they turn a display line,
//! the glyph cache and the screen geometry into the exact pixel writes the
//! surface must perform, and compute the line ranges and rectangles the
//! incremental scroll protocol shifts and repaints.
//!
//! Nothing here touches a device: the caller replays the returned pixel
//! operations onto the real surface.

use vstd::prelude::*;
use vstd::string::StrSliceExecFns;
use crate::glyph::GlyphCache;
use crate::types::{CharData, Direction, DisplayLine, SCREEN_HEIGHT, SCREEN_WIDTH};
use crate::wrap::graphemes_of;

verus! {

/// One color as the surface takes it.
#[derive(Clone, Copy, PartialEq, Eq, Structural, Debug)]
pub struct Rgb {
    pub r: u8,
    pub g: u8,
    pub b: u8,
}

/// One pixel write: set the pixel at `(x, y)` to `color`.
#[derive(Clone, Copy, PartialEq, Eq, Structural, Debug)]
pub struct PixelOp {
    pub x: usize,
    pub y: usize,
    pub color: Rgb,
}

/// A rectangle on the surface, in the surface's own coordinate types.
#[derive(Clone, Copy, PartialEq, Eq, Structural, Debug)]
pub struct ScreenRect {
    pub x: i16,
    pub y: i16,
    pub w: u16,
    pub h: u16,
}

/// The color a glyph pixel of intensity `alpha` gets: grayscale equal to the
/// alpha in normal mode, a green tint with the same alpha-driven intensity
/// for a highlighted line.
pub open spec fn glyph_color_spec(alpha: u8, highlighted: bool) -> Rgb {
    if highlighted {
        Rgb { r: alpha / 4, g: alpha, b: alpha / 5 }
    } else {
        Rgb { r: alpha, g: alpha, b: alpha }
    }
}

/// Computes the output color for one glyph pixel.
pub fn glyph_color(alpha: u8, highlighted: bool) -> (c: Rgb)
    ensures
        c == glyph_color_spec(alpha, highlighted),
{
    if highlighted {
        Rgb { r: alpha / 4, g: alpha, b: alpha / 5 }
    } else {
        Rgb { r: alpha, g: alpha, b: alpha }
    }
}

/// Whether a glyph's bitmap, drawn with its signed bearing at pen position
/// `(pen_x, pen_y)`, lands on the surface's address range: the horizontal
/// bearing is added to the pen, the vertical one subtracted from the
/// baseline, and the resulting origin must not leave the surface to the
/// left or the top nor run past the address space.
pub open spec fn glyph_fits(g: CharData, pen_x: int, pen_y: int) -> bool {
    &&& pen_x + g.bm_left >= 0
    &&& pen_y - g.bm_top >= 0
    &&& pen_x + g.bm_left + g.bm_w <= usize::MAX
    &&& pen_y - g.bm_top + g.bm_h <= usize::MAX
}

/// The draw origin of a fitting glyph: pen plus horizontal bearing, baseline
/// minus vertical bearing.
pub fn draw_origin(g: &CharData, pen_x: usize, pen_y: usize) -> (r: (usize, usize))
    requires
        glyph_fits(*g, pen_x as int, pen_y as int),
    ensures
        r.0 == pen_x + g.bm_left,
        r.1 == pen_y - g.bm_top,
{
    let x0: usize = if g.bm_left >= 0 {
        pen_x + (g.bm_left as usize)
    } else {
        pen_x - ((-(g.bm_left as i64)) as usize)
    };
    let y0: usize = if g.bm_top >= 0 {
        pen_y - (g.bm_top as usize)
    } else {
        pen_y + ((-(g.bm_top as i64)) as usize)
    };
    (x0, y0)
}

/// Decides `glyph_fits` for concrete values.
pub fn glyph_fits_check(g: &CharData, pen_x: usize, pen_y: usize) -> (b: bool)
    ensures
        b == glyph_fits(*g, pen_x as int, pen_y as int),
{
    let origin_ok: bool = if g.bm_left >= 0 {
        pen_x <= usize::MAX - (g.bm_left as usize)
    } else {
        pen_x >= (-(g.bm_left as i64)) as usize
    };
    if !origin_ok {
        return false;
    }
    let baseline_ok: bool = if g.bm_top >= 0 {
        pen_y >= (g.bm_top as usize)
    } else {
        pen_y <= usize::MAX - ((-(g.bm_top as i64)) as usize)
    };
    if !baseline_ok {
        return false;
    }
    let x0: usize = if g.bm_left >= 0 {
        pen_x + (g.bm_left as usize)
    } else {
        pen_x - ((-(g.bm_left as i64)) as usize)
    };
    let y0: usize = if g.bm_top >= 0 {
        pen_y - (g.bm_top as usize)
    } else {
        pen_y + ((-(g.bm_top as i64)) as usize)
    };
    usize::MAX - x0 >= g.bm_w && usize::MAX - y0 >= g.bm_h
}

/// The pixel writes of bitmap column `row` of a glyph, from bitmap row `col`
/// down, at draw origin `(x0, y0)`: cells with alpha zero are skipped, so
/// the cleared background shows through them.
pub open spec fn glyph_col_ops(g: CharData, hl: bool, x0: int, y0: int, row: int, col: int) -> Seq<
    PixelOp,
>
    decreases g.bm_h - col,
{
    if col < 0 || col >= g.bm_h {
        Seq::<PixelOp>::empty()
    } else {
        let rest = glyph_col_ops(g, hl, x0, y0, row, col + 1);
        if g.alpha_at(row, col) != 0 {
            seq![
                PixelOp {
                    x: (x0 + row) as usize,
                    y: (y0 + col) as usize,
                    color: glyph_color_spec(g.alpha_at(row, col), hl),
                },
            ] + rest
        } else {
            rest
        }
    }
}

/// The pixel writes of a glyph from bitmap column `row` on: the bitmap is
/// walked column by column across the screen, each column top to bottom.
pub open spec fn glyph_row_ops(g: CharData, hl: bool, x0: int, y0: int, row: int) -> Seq<PixelOp>
    decreases g.bm_w - row,
{
    if row < 0 || row >= g.bm_w {
        Seq::<PixelOp>::empty()
    } else {
        glyph_col_ops(g, hl, x0, y0, row, 0) + glyph_row_ops(g, hl, x0, y0, row + 1)
    }
}

/// All pixel writes of one glyph at pen position `(pen_x, pen_y)`: the draw
/// origin adds the horizontal bearing and subtracts the vertical one.
pub open spec fn glyph_ops_spec(g: CharData, hl: bool, pen_x: int, pen_y: int) -> Seq<PixelOp> {
    glyph_row_ops(g, hl, pen_x + g.bm_left, pen_y - g.bm_top, 0)
}

/// Computes every pixel write of one glyph: exactly the non-zero alpha
/// cells, at their absolute positions, in their tinted or grayscale color.
pub fn blit_glyph_ops(g: &CharData, highlighted: bool, pen_x: usize, pen_y: usize) -> (ops: Vec<
    PixelOp,
>)
    requires
        g.wf(),
        glyph_fits(*g, pen_x as int, pen_y as int),
    ensures
        ops@ == glyph_ops_spec(*g, highlighted, pen_x as int, pen_y as int),
{
    let (x0, y0) = draw_origin(g, pen_x, pen_y);
    let mut ops: Vec<PixelOp> = Vec::new();
    let mut row: usize = 0;
    proof {
        assert(ops@ + glyph_row_ops(*g, highlighted, x0 as int, y0 as int, 0) =~= glyph_row_ops(
            *g,
            highlighted,
            x0 as int,
            y0 as int,
            0,
        ));
    }
    while row < g.bm_w
        invariant
            g.wf(),
            glyph_fits(*g, pen_x as int, pen_y as int),
            x0 == pen_x + g.bm_left,
            y0 == pen_y - g.bm_top,
            row <= g.bm_w,
            ops@ + glyph_row_ops(*g, highlighted, x0 as int, y0 as int, row as int)
                == glyph_row_ops(*g, highlighted, x0 as int, y0 as int, 0),
        decreases g.bm_w - row,
    {
        let mut col: usize = 0;
        let ghost target = glyph_row_ops(*g, highlighted, x0 as int, y0 as int, 0);
        let ghost row_rest = glyph_row_ops(*g, highlighted, x0 as int, y0 as int, row as int + 1);
        proof {
            assert(glyph_row_ops(*g, highlighted, x0 as int, y0 as int, row as int)
                == glyph_col_ops(*g, highlighted, x0 as int, y0 as int, row as int, 0) + row_rest);
        }
        while col < g.bm_h
            invariant
                g.wf(),
                glyph_fits(*g, pen_x as int, pen_y as int),
                x0 == pen_x + g.bm_left,
                y0 == pen_y - g.bm_top,
                row < g.bm_w,
                col <= g.bm_h,
                ops@ + glyph_col_ops(*g, highlighted, x0 as int, y0 as int, row as int, col as int)
                    + row_rest == target,
            decreases g.bm_h - col,
        {
            proof {
                assert((col as int) * g.bm_w + row < g.bm_w * g.bm_h) by (nonlinear_arith)
                    requires
                        (col as int) < g.bm_h,
                        (row as int) < g.bm_w,
                ;
            }
            let idx = col * g.bm_w + row;
            let alpha = g.bm_buffer[idx];
            let ghost col_rest = glyph_col_ops(
                *g,
                highlighted,
                x0 as int,
                y0 as int,
                row as int,
                col as int + 1,
            );
            if alpha != 0 {
                let op = PixelOp { x: x0 + row, y: y0 + col, color: glyph_color(alpha, highlighted) };
                let ghost pre = ops@;
                ops.push(op);
                proof {
                    assert(g.alpha_at(row as int, col as int) == alpha);
                    assert(glyph_col_ops(
                        *g,
                        highlighted,
                        x0 as int,
                        y0 as int,
                        row as int,
                        col as int,
                    ) == seq![op] + col_rest);
                    assert(ops@ + col_rest + row_rest =~= pre + (seq![op] + col_rest) + row_rest);
                }
            } else {
                proof {
                    assert(g.alpha_at(row as int, col as int) == alpha);
                    assert(glyph_col_ops(
                        *g,
                        highlighted,
                        x0 as int,
                        y0 as int,
                        row as int,
                        col as int,
                    ) == col_rest);
                }
            }
            col += 1;
        }
        proof {
            assert(glyph_col_ops(*g, highlighted, x0 as int, y0 as int, row as int, col as int)
                =~= Seq::<PixelOp>::empty());
            assert(ops@ + glyph_row_ops(*g, highlighted, x0 as int, y0 as int, row as int + 1)
                =~= ops@ + glyph_col_ops(*g, highlighted, x0 as int, y0 as int, row as int, col as int)
                + row_rest);
        }
        row += 1;
    }
    proof {
        assert(glyph_row_ops(*g, highlighted, x0 as int, y0 as int, row as int)
            =~= Seq::<PixelOp>::empty());
        assert(ops@ =~= ops@ + glyph_row_ops(*g, highlighted, x0 as int, y0 as int, row as int));
    }
    ops
}

/// What planning the pixel writes of one line yields in the spec: the
/// writes, or the first character that has no cached glyph, or the first
/// one whose cached glyph does not fit at its pen position.
pub enum LineOutcome {
    Ops(Seq<PixelOp>),
    MissingGlyph(char),
    Misfit(char),
}

/// Why planning a line's pixel writes stopped early.
#[derive(Clone, Copy, PartialEq, Eq, Structural, Debug)]
pub enum RenderHalt {
    MissingGlyph(char),
    Misfit(char),
}

/// Code point `j` of a cluster drawn at pen `pen_x` can be composited: its
/// glyph is cached and fits there.
pub open spec fn cluster_char_ok(
    cluster: Seq<char>,
    cache: Map<u32, CharData>,
    pen_x: int,
    y: int,
    j: int,
) -> bool {
    &&& cache.contains_key(cluster[j] as u32)
    &&& glyph_fits(cache[cluster[j] as u32], pen_x, y)
}

/// The outcome of compositing the code points of one grapheme cluster from
/// index `j` on, all at the same pen position `pen_x`, so a combining mark
/// overlays its base glyph: the concatenated glyph writes, or the first
/// code point that cannot be drawn.
pub open spec fn cluster_render_spec(
    cluster: Seq<char>,
    cache: Map<u32, CharData>,
    hl: bool,
    pen_x: int,
    y: int,
    j: int,
) -> LineOutcome
    decreases cluster.len() - j,
{
    if j < 0 || j >= cluster.len() {
        LineOutcome::Ops(Seq::<PixelOp>::empty())
    } else {
        let c = cluster[j];
        let cp = c as u32;
        if !cache.contains_key(cp) {
            LineOutcome::MissingGlyph(c)
        } else if !glyph_fits(cache[cp], pen_x, y) {
            LineOutcome::Misfit(c)
        } else {
            match cluster_render_spec(cluster, cache, hl, pen_x, y, j + 1) {
                LineOutcome::Ops(rest) => LineOutcome::Ops(
                    glyph_ops_spec(cache[cp], hl, pen_x, y) + rest,
                ),
                o => o,
            }
        }
    }
}

/// The glyph writes of the first `j` code points of a cluster at `pen_x`.
pub open spec fn cluster_prefix_ops(
    cluster: Seq<char>,
    cache: Map<u32, CharData>,
    hl: bool,
    pen_x: int,
    y: int,
    j: int,
) -> Seq<PixelOp>
    decreases j,
{
    if j <= 0 {
        Seq::<PixelOp>::empty()
    } else {
        cluster_prefix_ops(cluster, cache, hl, pen_x, y, j - 1) + glyph_ops_spec(
            cache[cluster[j - 1] as u32],
            hl,
            pen_x,
            y,
        )
    }
}

/// The writes of one whole cluster at `pen_x`, where the cluster is known
/// to be drawable; any other cluster contributes nothing.
pub open spec fn cluster_ops_of(
    cluster: Seq<char>,
    cache: Map<u32, CharData>,
    hl: bool,
    pen_x: int,
    y: int,
) -> Seq<PixelOp> {
    match cluster_render_spec(cluster, cache, hl, pen_x, y, 0) {
        LineOutcome::Ops(s) => s,
        _ => Seq::<PixelOp>::empty(),
    }
}

/// Compositing a cluster whose first `j` code points can all be drawn
/// yields their writes followed by whatever the rest yields.
proof fn lemma_cluster_render_split(
    cluster: Seq<char>,
    cache: Map<u32, CharData>,
    hl: bool,
    pen_x: int,
    y: int,
    j: int,
)
    requires
        0 <= j <= cluster.len(),
        forall|t: int| 0 <= t < j ==> cluster_char_ok(cluster, cache, pen_x, y, t),
    ensures
        cluster_render_spec(cluster, cache, hl, pen_x, y, 0) == (match cluster_render_spec(
            cluster,
            cache,
            hl,
            pen_x,
            y,
            j,
        ) {
            LineOutcome::Ops(rest) => LineOutcome::Ops(
                cluster_prefix_ops(cluster, cache, hl, pen_x, y, j) + rest,
            ),
            o => o,
        }),
    decreases j,
{
    if j == 0 {
        match cluster_render_spec(cluster, cache, hl, pen_x, y, 0) {
            LineOutcome::Ops(rest) => {
                assert(cluster_prefix_ops(cluster, cache, hl, pen_x, y, 0) + rest =~= rest);
            },
            _ => {},
        }
    } else {
        lemma_cluster_render_split(cluster, cache, hl, pen_x, y, j - 1);
        assert(cluster_char_ok(cluster, cache, pen_x, y, j - 1));
        let gops = glyph_ops_spec(cache[cluster[j - 1] as u32], hl, pen_x, y);
        let pre = cluster_prefix_ops(cluster, cache, hl, pen_x, y, j - 1);
        match cluster_render_spec(cluster, cache, hl, pen_x, y, j) {
            LineOutcome::Ops(rest) => {
                assert(cluster_render_spec(cluster, cache, hl, pen_x, y, j - 1)
                    == LineOutcome::Ops(gops + rest));
                assert(pre + (gops + rest) =~= (pre + gops) + rest);
            },
            _ => {
                assert(cluster_render_spec(cluster, cache, hl, pen_x, y, j - 1)
                    == cluster_render_spec(cluster, cache, hl, pen_x, y, j));
            },
        }
    }
}

/// The outcome of compositing a line's grapheme clusters from index `k` on,
/// the pen advancing by exactly `cw` per cluster at baseline `y`: all their
/// writes in order, or the first code point that cannot be drawn.
pub open spec fn render_line_spec(
    clusters: Seq<Seq<char>>,
    cache: Map<u32, CharData>,
    hl: bool,
    cw: int,
    y: int,
    k: int,
) -> LineOutcome
    decreases clusters.len() - k,
{
    if k < 0 || k >= clusters.len() {
        LineOutcome::Ops(Seq::<PixelOp>::empty())
    } else {
        match cluster_render_spec(clusters[k], cache, hl, k * cw, y, 0) {
            LineOutcome::Ops(first) => match render_line_spec(clusters, cache, hl, cw, y, k + 1) {
                LineOutcome::Ops(rest) => LineOutcome::Ops(first + rest),
                o => o,
            },
            o => o,
        }
    }
}

/// The writes of the first `k` clusters of a line.
pub open spec fn line_prefix_ops(
    clusters: Seq<Seq<char>>,
    cache: Map<u32, CharData>,
    hl: bool,
    cw: int,
    y: int,
    k: int,
) -> Seq<PixelOp>
    decreases k,
{
    if k <= 0 {
        Seq::<PixelOp>::empty()
    } else {
        line_prefix_ops(clusters, cache, hl, cw, y, k - 1) + cluster_ops_of(
            clusters[k - 1],
            cache,
            hl,
            (k - 1) * cw,
            y,
        )
    }
}

/// Compositing a line whose first `k` clusters were all drawable yields
/// their writes followed by whatever the remaining clusters yield.
proof fn lemma_render_line_split(
    clusters: Seq<Seq<char>>,
    cache: Map<u32, CharData>,
    hl: bool,
    cw: int,
    y: int,
    k: int,
)
    requires
        0 <= k <= clusters.len(),
        forall|m: int|
            0 <= m < k ==> cluster_render_spec(#[trigger] clusters[m], cache, hl, m * cw, y, 0)
                == LineOutcome::Ops(cluster_ops_of(clusters[m], cache, hl, m * cw, y)),
    ensures
        render_line_spec(clusters, cache, hl, cw, y, 0) == (match render_line_spec(
            clusters,
            cache,
            hl,
            cw,
            y,
            k,
        ) {
            LineOutcome::Ops(rest) => LineOutcome::Ops(
                line_prefix_ops(clusters, cache, hl, cw, y, k) + rest,
            ),
            o => o,
        }),
    decreases k,
{
    if k == 0 {
        match render_line_spec(clusters, cache, hl, cw, y, 0) {
            LineOutcome::Ops(rest) => {
                assert(line_prefix_ops(clusters, cache, hl, cw, y, 0) + rest =~= rest);
            },
            _ => {},
        }
    } else {
        lemma_render_line_split(clusters, cache, hl, cw, y, k - 1);
        let gops = cluster_ops_of(clusters[k - 1], cache, hl, (k - 1) * cw, y);
        let pre = line_prefix_ops(clusters, cache, hl, cw, y, k - 1);
        assert(cluster_render_spec(clusters[k - 1], cache, hl, (k - 1) * cw, y, 0)
            == LineOutcome::Ops(gops));
        match render_line_spec(clusters, cache, hl, cw, y, k) {
            LineOutcome::Ops(rest) => {
                assert(render_line_spec(clusters, cache, hl, cw, y, k - 1) == LineOutcome::Ops(
                    gops + rest,
                ));
                assert(pre + (gops + rest) =~= (pre + gops) + rest);
            },
            _ => {
                assert(render_line_spec(clusters, cache, hl, cw, y, k - 1) == render_line_spec(
                    clusters,
                    cache,
                    hl,
                    cw,
                    y,
                    k,
                ));
            },
        }
    }
}

/// Plans every pixel write of one display line at baseline `draw_y`. The
/// line is segmented into grapheme clusters and the pen advances by exactly
/// `char_width` per cluster; every code point of a cluster is composited at
/// the cluster's pen position, so a combining mark overlays its base glyph.
/// Stops at the first code point without a cached glyph, so the caller can
/// rasterize it and retry, or at the first cached glyph that cannot be
/// placed.
pub fn render_line_ops(
    line: &DisplayLine,
    cache: &GlyphCache,
    char_width: usize,
    draw_y: usize,
) -> (r: Result<Vec<PixelOp>, RenderHalt>)
    requires
        cache.wf(),
        line.text@.len() * char_width <= usize::MAX,
    ensures
        ({
            let clusters = graphemes_of(line.text@);
            match r {
                Ok(ops) => render_line_spec(
                    clusters,
                    cache@,
                    line.highlighted,
                    char_width as int,
                    draw_y as int,
                    0,
                ) == LineOutcome::Ops(ops@),
                Err(RenderHalt::MissingGlyph(c)) => render_line_spec(
                    clusters,
                    cache@,
                    line.highlighted,
                    char_width as int,
                    draw_y as int,
                    0,
                ) == LineOutcome::MissingGlyph(c),
                Err(RenderHalt::Misfit(c)) => render_line_spec(
                    clusters,
                    cache@,
                    line.highlighted,
                    char_width as int,
                    draw_y as int,
                    0,
                ) == LineOutcome::Misfit(c),
            }
        }),
{
    let clusters = crate::wrap::grapheme_clusters(line.text.as_str());
    let ghost cls = clusters.deep_view();
    proof {
        crate::wrap::lemma_flatten_len_ge_count(cls);
        assert(cls.len() <= line.text@.len());
    }
    let mut ops: Vec<PixelOp> = Vec::new();
    let mut k: usize = 0;
    while k < clusters.len()
        invariant
            cache.wf(),
            cls == clusters.deep_view(),
            cls == graphemes_of(line.text@),
            cls.len() <= line.text@.len(),
            line.text@.len() * char_width <= usize::MAX,
            k <= clusters.len(),
            forall|m: int|
                0 <= m < k ==> cluster_render_spec(
                    #[trigger] cls[m],
                    cache@,
                    line.highlighted,
                    m * (char_width as int),
                    draw_y as int,
                    0,
                ) == LineOutcome::Ops(
                    cluster_ops_of(
                        cls[m],
                        cache@,
                        line.highlighted,
                        m * (char_width as int),
                        draw_y as int,
                    ),
                ),
            ops@ == line_prefix_ops(
                cls,
                cache@,
                line.highlighted,
                char_width as int,
                draw_y as int,
                k as int,
            ),
        decreases clusters.len() - k,
    {
        proof {
            assert((k as int) * char_width <= line.text@.len() * char_width)
                by (nonlinear_arith)
                requires
                    (k as int) <= line.text@.len(),
                    char_width >= 0,
            ;
        }
        let pen_x = k * char_width;
        let cluster = &clusters[k];
        let ghost cl = cls[k as int];
        proof {
            assert(cl == cluster@);
        }
        let cn = cluster.as_str().unicode_len();
        let mut j: usize = 0;
        while j < cn
            invariant
                cache.wf(),
                cls == graphemes_of(line.text@),
                k < cls.len(),
                cl == cls[k as int],
                forall|m: int|
                    0 <= m < k ==> cluster_render_spec(
                        #[trigger] cls[m],
                        cache@,
                        line.highlighted,
                        m * (char_width as int),
                        draw_y as int,
                        0,
                    ) == LineOutcome::Ops(
                        cluster_ops_of(
                            cls[m],
                            cache@,
                            line.highlighted,
                            m * (char_width as int),
                            draw_y as int,
                        ),
                    ),
                cn == cl.len(),
                cl == cluster@,
                pen_x == (k as int) * (char_width as int),
                j <= cn,
                forall|t: int|
                    0 <= t < j ==> cluster_char_ok(cl, cache@, pen_x as int, draw_y as int, t),
                ops@ == line_prefix_ops(
                    cls,
                    cache@,
                    line.highlighted,
                    char_width as int,
                    draw_y as int,
                    k as int,
                ) + cluster_prefix_ops(
                    cl,
                    cache@,
                    line.highlighted,
                    pen_x as int,
                    draw_y as int,
                    j as int,
                ),
            decreases cn - j,
        {
            let c = cluster.as_str().get_char(j);
            let cp = c as u32;
            match cache.get(cp) {
                None => {
                    proof {
                        lemma_cluster_render_split(
                            cl,
                            cache@,
                            line.highlighted,
                            pen_x as int,
                            draw_y as int,
                            j as int,
                        );
                        lemma_render_line_split(
                            cls,
                            cache@,
                            line.highlighted,
                            char_width as int,
                            draw_y as int,
                            k as int,
                        );
                    }
                    return Err(RenderHalt::MissingGlyph(c));
                },
                Some(g) => {
                    if !glyph_fits_check(g, pen_x, draw_y) {
                        proof {
                            lemma_cluster_render_split(
                                cl,
                                cache@,
                                line.highlighted,
                                pen_x as int,
                                draw_y as int,
                                j as int,
                            );
                            lemma_render_line_split(
                                cls,
                                cache@,
                                line.highlighted,
                                char_width as int,
                                draw_y as int,
                                k as int,
                            );
                        }
                        return Err(RenderHalt::Misfit(c));
                    }
                    let mut gops = blit_glyph_ops(g, line.highlighted, pen_x, draw_y);
                    proof {
                        assert(cluster_char_ok(cl, cache@, pen_x as int, draw_y as int, j as int));
                        assert(gops@ == glyph_ops_spec(
                            cache@[cp],
                            line.highlighted,
                            pen_x as int,
                            draw_y as int,
                        ));
                    }
                    ops.append(&mut gops);
                    j += 1;
                },
            }
        }
        proof {
            assert(cluster_render_spec(
                cl,
                cache@,
                line.highlighted,
                pen_x as int,
                draw_y as int,
                cn as int,
            ) == LineOutcome::Ops(Seq::<PixelOp>::empty()));
            lemma_cluster_render_split(
                cl,
                cache@,
                line.highlighted,
                pen_x as int,
                draw_y as int,
                cn as int,
            );
            let cpre = cluster_prefix_ops(
                cl,
                cache@,
                line.highlighted,
                pen_x as int,
                draw_y as int,
                cn as int,
            );
            assert(cpre + Seq::<PixelOp>::empty() =~= cpre);
            assert(cluster_render_spec(cl, cache@, line.highlighted, pen_x as int, draw_y as int, 0)
                == LineOutcome::Ops(cpre));
            assert(cluster_ops_of(cl, cache@, line.highlighted, pen_x as int, draw_y as int)
                == cpre);
        }
        k += 1;
    }
    proof {
        lemma_render_line_split(
            cls,
            cache@,
            line.highlighted,
            char_width as int,
            draw_y as int,
            cls.len() as int,
        );
        assert(render_line_spec(
            cls,
            cache@,
            line.highlighted,
            char_width as int,
            draw_y as int,
            cls.len() as int,
        ) == LineOutcome::Ops(Seq::<PixelOp>::empty()));
        assert(ops@ + Seq::<PixelOp>::empty() =~= ops@);
    }
    Ok(ops)
}

/// The pixel writes of one line as a sequence, where the line is known to
/// be drawable; any other line contributes nothing.
pub open spec fn line_ops_of(
    text: Seq<char>,
    cache: Map<u32, CharData>,
    hl: bool,
    cw: int,
    y: int,
) -> Seq<PixelOp> {
    match render_line_spec(graphemes_of(text), cache, hl, cw, y, 0) {
        LineOutcome::Ops(s) => s,
        _ => Seq::<PixelOp>::empty(),
    }
}

/// The outcome of drawing display lines `l` up to `end` of a window, line
/// `l` on visible row `row`, each next line one row further down: all their
/// writes in order, or the first character of the first line that cannot be
/// drawn.
pub open spec fn render_window_spec(
    lines: Seq<(Seq<char>, bool)>,
    cache: Map<u32, CharData>,
    cw: int,
    ch: int,
    l: int,
    end: int,
    row: int,
) -> LineOutcome
    decreases end - l,
{
    if l >= end {
        LineOutcome::Ops(Seq::<PixelOp>::empty())
    } else {
        match render_line_spec(graphemes_of(lines[l].0), cache, lines[l].1, cw, (row + 1) * ch, 0) {
            LineOutcome::Ops(first) => match render_window_spec(
                lines,
                cache,
                cw,
                ch,
                l + 1,
                end,
                row + 1,
            ) {
                LineOutcome::Ops(rest) => LineOutcome::Ops(first + rest),
                o => o,
            },
            o => o,
        }
    }
}

/// The writes of window lines `start` up to `l`, the first on row `row0`.
pub open spec fn window_prefix_ops(
    lines: Seq<(Seq<char>, bool)>,
    cache: Map<u32, CharData>,
    cw: int,
    ch: int,
    start: int,
    l: int,
    row0: int,
) -> Seq<PixelOp>
    decreases l - start,
{
    if l <= start {
        Seq::<PixelOp>::empty()
    } else {
        window_prefix_ops(lines, cache, cw, ch, start, l - 1, row0) + line_ops_of(
            lines[l - 1].0,
            cache,
            lines[l - 1].1,
            cw,
            (row0 + (l - 1 - start) + 1) * ch,
        )
    }
}

/// Drawing a window whose first lines were all drawable yields their writes
/// followed by whatever the remaining lines yield.
proof fn lemma_render_window_split(
    lines: Seq<(Seq<char>, bool)>,
    cache: Map<u32, CharData>,
    cw: int,
    ch: int,
    start: int,
    end: int,
    row0: int,
    l: int,
)
    requires
        start <= l <= end,
        forall|m: int|
            start <= m < l ==> render_line_spec(
                graphemes_of(lines[m].0),
                cache,
                (#[trigger] lines[m]).1,
                cw,
                (row0 + (m - start) + 1) * ch,
                0,
            ) == LineOutcome::Ops(
                line_ops_of(lines[m].0, cache, lines[m].1, cw, (row0 + (m - start) + 1) * ch),
            ),
    ensures
        render_window_spec(lines, cache, cw, ch, start, end, row0) == (match render_window_spec(
            lines,
            cache,
            cw,
            ch,
            l,
            end,
            row0 + (l - start),
        ) {
            LineOutcome::Ops(rest) => LineOutcome::Ops(
                window_prefix_ops(lines, cache, cw, ch, start, l, row0) + rest,
            ),
            o => o,
        }),
    decreases l - start,
{
    if l == start {
        match render_window_spec(lines, cache, cw, ch, l, end, row0) {
            LineOutcome::Ops(rest) => {
                assert(window_prefix_ops(lines, cache, cw, ch, start, l, row0) + rest =~= rest);
            },
            _ => {},
        }
    } else {
        lemma_render_window_split(lines, cache, cw, ch, start, end, row0, l - 1);
        let gops = line_ops_of(lines[l - 1].0, cache, lines[l - 1].1, cw, (row0 + (l - 1 - start) + 1) * ch);
        let pre = window_prefix_ops(lines, cache, cw, ch, start, l - 1, row0);
        assert(render_line_spec(
            graphemes_of(lines[l - 1].0),
            cache,
            lines[l - 1].1,
            cw,
            (row0 + (l - 1 - start) + 1) * ch,
            0,
        ) == LineOutcome::Ops(gops));
        match render_window_spec(lines, cache, cw, ch, l, end, row0 + (l - start)) {
            LineOutcome::Ops(rest) => {
                assert(render_window_spec(lines, cache, cw, ch, l - 1, end, row0 + (l - 1 - start))
                    == LineOutcome::Ops(gops + rest));
                assert(pre + (gops + rest) =~= (pre + gops) + rest);
                assert(window_prefix_ops(lines, cache, cw, ch, start, l, row0) == pre + gops);
            },
            _ => {
                assert(render_window_spec(lines, cache, cw, ch, l - 1, end, row0 + (l - 1 - start))
                    == render_window_spec(lines, cache, cw, ch, l, end, row0 + (l - start)));
            },
        }
    }
}

/// Plans every pixel write of the window of display lines `start` up to
/// `end`, the first drawn on visible row `row0`, each line one glyph row
/// further down. Stops at the first character without a cached glyph, so
/// the caller can rasterize it and retry, or at the first glyph that does
/// not fit its place.
pub fn render_window_ops(
    lines: &Vec<DisplayLine>,
    cache: &GlyphCache,
    char_width: usize,
    char_height: usize,
    start: usize,
    end: usize,
    row0: usize,
) -> (r: Result<Vec<PixelOp>, RenderHalt>)
    requires
        cache.wf(),
        char_height >= 1,
        start <= end <= lines@.len(),
        (row0 + (end - start) + 1) * char_height <= usize::MAX,
        forall|i: int|
            0 <= i < lines@.len() ==> (#[trigger] lines@[i]).text@.len() * char_width
                <= usize::MAX,
    ensures
        match r {
            Ok(ops) => render_window_spec(
                crate::wrap::views_of(lines@),
                cache@,
                char_width as int,
                char_height as int,
                start as int,
                end as int,
                row0 as int,
            ) == LineOutcome::Ops(ops@),
            Err(RenderHalt::MissingGlyph(c)) => render_window_spec(
                crate::wrap::views_of(lines@),
                cache@,
                char_width as int,
                char_height as int,
                start as int,
                end as int,
                row0 as int,
            ) == LineOutcome::MissingGlyph(c),
            Err(RenderHalt::Misfit(c)) => render_window_spec(
                crate::wrap::views_of(lines@),
                cache@,
                char_width as int,
                char_height as int,
                start as int,
                end as int,
                row0 as int,
            ) == LineOutcome::Misfit(c),
        },
{
    let ghost lv = crate::wrap::views_of(lines@);
    let mut ops: Vec<PixelOp> = Vec::new();
    let mut l: usize = start;
    while l < end
        invariant
            cache.wf(),
            char_height >= 1,
            start <= l <= end <= lines@.len(),
            lv == crate::wrap::views_of(lines@),
            (row0 + (end - start) + 1) * char_height <= usize::MAX,
            forall|i: int|
                0 <= i < lines@.len() ==> (#[trigger] lines@[i]).text@.len() * char_width
                    <= usize::MAX,
            forall|m: int|
                start <= m < l ==> render_line_spec(
                    graphemes_of(lv[m].0),
                    cache@,
                    (#[trigger] lv[m]).1,
                    char_width as int,
                    (row0 + (m - start) + 1) * (char_height as int),
                    0,
                ) == LineOutcome::Ops(
                    line_ops_of(
                        lv[m].0,
                        cache@,
                        lv[m].1,
                        char_width as int,
                        (row0 + (m - start) + 1) * (char_height as int),
                    ),
                ),
            ops@ == window_prefix_ops(
                lv,
                cache@,
                char_width as int,
                char_height as int,
                start as int,
                l as int,
                row0 as int,
            ),
        decreases end - l,
    {
        proof {
            assert((row0 + (l - start) + 1) * char_height <= (row0 + (end - start) + 1)
                * char_height) by (nonlinear_arith)
                requires
                    (l as int) <= (end as int),
                    (start as int) <= (l as int),
                    char_height >= 0,
                    row0 >= 0,
            ;
            assert(row0 + (end - start) + 1 <= (row0 + (end - start) + 1) * char_height)
                by (nonlinear_arith)
                requires
                    char_height >= 1,
                    row0 >= 0,
                    (start as int) <= (end as int),
            ;
        }
        let row = row0 + (l - start);
        let y = (row + 1) * char_height;
        let line = &lines[l];
        proof {
            assert(lv[l as int] == lines@[l as int]@);
            assert(lv[l as int].0 == line.text@ && lv[l as int].1 == line.highlighted);
        }
        match render_line_ops(line, cache, char_width, y) {
            Ok(mut gops) => {
                proof {
                    assert(render_line_spec(
                        graphemes_of(lv[l as int].0),
                        cache@,
                        lv[l as int].1,
                        char_width as int,
                        (row0 + (l - start) + 1) * (char_height as int),
                        0,
                    ) == LineOutcome::Ops(gops@));
                }
                ops.append(&mut gops);
            },
            Err(halt) => {
                proof {
                    lemma_render_window_split(
                        lv,
                        cache@,
                        char_width as int,
                        char_height as int,
                        start as int,
                        end as int,
                        row0 as int,
                        l as int,
                    );
                }
                return Err(halt);
            },
        }
        l += 1;
    }
    proof {
        lemma_render_window_split(
            lv,
            cache@,
            char_width as int,
            char_height as int,
            start as int,
            end as int,
            row0 as int,
            end as int,
        );
        assert(render_window_spec(
            lv,
            cache@,
            char_width as int,
            char_height as int,
            end as int,
            end as int,
            row0 as int + (end - start),
        ) == LineOutcome::Ops(Seq::<PixelOp>::empty()));
        assert(ops@ + Seq::<PixelOp>::empty() =~= ops@);
    }
    Ok(ops)
}

/// The display-line range one repaint draws, and the baseline of its first
/// row: a full repaint draws the visible window, the lines from the scroll
/// offset down to the fold, from the top of the screen; a one-line repaint
/// draws exactly the line at visible row `row`, at that row's baseline.
pub fn visible_range(
    n_lines: usize,
    scrolled: usize,
    max_lines: usize,
    char_height: usize,
    only_row: Option<usize>,
) -> (r: (usize, usize, usize))
    requires
        scrolled <= n_lines,
        match only_row {
            Some(row) => row < max_lines && scrolled + row < n_lines && (row + 1) * char_height
                <= usize::MAX,
            None => true,
        },
    ensures
        match only_row {
            Some(row) => {
                &&& r.0 == scrolled + row
                &&& r.1 == scrolled + row + 1
                &&& r.2 == (row + 1) * char_height
            },
            None => {
                &&& r.0 == scrolled
                &&& r.1 == scrolled + (if n_lines - scrolled < max_lines {
                    n_lines - scrolled
                } else {
                    max_lines as int
                })
                &&& r.2 == char_height
            },
        },
{
    match only_row {
        Some(row) => {
            proof {
                assert((row + 1) * char_height == row * char_height + char_height)
                    by (nonlinear_arith)
                ;
                assert(row * char_height >= 0) by (nonlinear_arith)
                    requires
                        row >= 0,
                        char_height >= 0,
                ;
            }
            (scrolled + row, scrolled + row + 1, (row + 1) * char_height)
        },
        None => {
            let below = n_lines - scrolled;
            let count = if below < max_lines {
                below
            } else {
                max_lines
            };
            (scrolled, scrolled + count, char_height)
        },
    }
}

/// The three rectangles of one incremental scroll step: the kept region as
/// it is read, the place it is copied to, and the newly exposed strip that
/// is cleared to background before the new line is drawn into it. Scrolling
/// the view down moves the framebuffer content up, and the other way round.
pub fn shift_fb_rects(char_height: usize, direction: Direction) -> (r: (
    ScreenRect,
    ScreenRect,
    ScreenRect,
))
    requires
        1 <= char_height <= SCREEN_HEIGHT,
    ensures
        ({
            let keep_h = (SCREEN_HEIGHT - char_height) as u16;
            let w = SCREEN_WIDTH as u16;
            match direction {
                Direction::Up => {
                    &&& r.0 == (ScreenRect { x: 0, y: char_height as i16, w, h: keep_h })
                    &&& r.1 == (ScreenRect { x: 0, y: 0, w, h: keep_h })
                    &&& r.2 == (ScreenRect {
                        x: 0,
                        y: (SCREEN_HEIGHT - char_height) as i16,
                        w,
                        h: char_height as u16,
                    })
                },
                Direction::Down => {
                    &&& r.0 == (ScreenRect { x: 0, y: 0, w, h: keep_h })
                    &&& r.1 == (ScreenRect { x: 0, y: char_height as i16, w, h: keep_h })
                    &&& r.2 == (ScreenRect { x: 0, y: 0, w, h: char_height as u16 })
                },
            }
        }),
{
    let keep_h = (SCREEN_HEIGHT - char_height) as u16;
    let w = SCREEN_WIDTH as u16;
    match direction {
        Direction::Up => (
            ScreenRect { x: 0, y: char_height as i16, w, h: keep_h },
            ScreenRect { x: 0, y: 0, w, h: keep_h },
            ScreenRect {
                x: 0,
                y: (SCREEN_HEIGHT - char_height) as i16,
                w,
                h: char_height as u16,
            },
        ),
        Direction::Down => (
            ScreenRect { x: 0, y: 0, w, h: keep_h },
            ScreenRect { x: 0, y: char_height as i16, w, h: keep_h },
            ScreenRect { x: 0, y: 0, w, h: char_height as u16 },
        ),
    }
}

} // verus!
