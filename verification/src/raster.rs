//! The raw-pixel path: turns a plan of composite passes into a tightly
//! packed RGBA8 buffer, row-major, top to bottom.
//!
//! A `width` by `height` target frames the render-space rectangle from
//! `(0, 0)` to `(width, height)`, one render unit per pixel: the pixel at
//! `(px, py)` is covered by an unrotated quad exactly when its center lies
//! inside it.  The raw path composites solid fills only, blending source
//! over destination per channel; shaped paints (rounded corners, ellipse
//! masks, glyphs, sampled surfaces) belong to the device backend's fragment
//! stage and leave the raw buffer untouched.

use crate::clips::ClipLoader;
use crate::compositor::dens_of_map;
use crate::compositor::element_passes;
use crate::compositor::elements_ok;
use crate::compositor::is_render_of;
use crate::compositor::passes_for;
use crate::compositor::rect_pass_rel;
use crate::compositor::ClipDen;
use crate::compositor::Paint;
use crate::compositor::Pass;
use crate::compositor::RenderError;
use crate::compositor::RenderOutput;
use crate::compositor::SurfaceContent;
use crate::elements::Color;
use crate::elements::Elements;
use crate::elements::Rect;
use crate::elements::Vec2;
use crate::sort::sort_by_order_spec;
use vstd::prelude::*;

verus! {

/// The color a cleared target holds.
pub open spec fn clear_color() -> Color {
    Color { r: 0, g: 0, b: 0, a: 0 }
}

/// Whether a pass fills the pixel at `(px, py)`: an unrotated solid quad
/// whose span contains the pixel's center.
pub open spec fn pass_fills(p: Pass, px: int, py: int) -> bool {
    &&& p.rotation == 0
    &&& p.paint is Solid
    &&& p.quad.x0 <= px < p.quad.x1
    &&& p.quad.y0 <= py < p.quad.y1
}

/// The solid color a pass paints with.
pub open spec fn solid_color(p: Pass) -> Color {
    match p.paint {
        Paint::Solid { color, .. } => color,
        _ => clear_color(),
    }
}

/// One color channel of source-over blending, truncating to whole units:
/// the source weighted by its alpha plus the destination weighted by the
/// remainder.
pub open spec fn blend_channel(dst: u8, src: u8, alpha: u8) -> int {
    (src * alpha + dst * (255 - alpha)) / 255
}

/// Source-over blending of one pixel.
pub open spec fn blend(dst: Color, src: Color) -> Color {
    Color {
        r: blend_channel(dst.r, src.r, src.a) as u8,
        g: blend_channel(dst.g, src.g, src.a) as u8,
        b: blend_channel(dst.b, src.b, src.a) as u8,
        a: (src.a + (dst.a * (255 - src.a)) / 255) as u8,
    }
}

/// The color of the pixel at `(px, py)` after every pass ran, in order,
/// over a cleared target.
pub open spec fn pixel_after(passes: Seq<Pass>, px: int, py: int) -> Color
    decreases passes.len(),
{
    if passes.len() == 0 {
        clear_color()
    } else {
        let prev = pixel_after(passes.drop_last(), px, py);
        if pass_fills(passes.last(), px, py) {
            blend(prev, solid_color(passes.last()))
        } else {
            prev
        }
    }
}

/// What a raw buffer of a `width` by `height` target holds: exactly
/// `width * height * 4` bytes, the pixel at `(px, py)` starting at byte
/// `4 * (py * width + px)` with its channels in R, G, B, A order.
pub open spec fn raster_of(
    passes: Seq<Pass>,
    width: u32,
    height: u32,
    bytes: Seq<u8>,
) -> bool {
    &&& bytes.len() == width as int * height as int * 4
    &&& forall|px: int, py: int|
        0 <= px < width && 0 <= py < height ==> {
            let c = #[trigger] pixel_after(passes, px, py);
            let base = 4 * (py * width + px);
            &&& bytes[base] == c.r
            &&& bytes[base + 1] == c.g
            &&& bytes[base + 2] == c.b
            &&& bytes[base + 3] == c.a
        }
}

/// Blended channels stay within one byte.
proof fn lemma_blend_in_range(dst: Color, src: Color)
    ensures
        0 <= blend_channel(dst.r, src.r, src.a) <= 255,
        0 <= blend_channel(dst.g, src.g, src.a) <= 255,
        0 <= blend_channel(dst.b, src.b, src.a) <= 255,
        0 <= src.a + (dst.a * (255 - src.a)) / 255 <= 255,
{
    lemma_channel_in_range(dst.r, src.r, src.a);
    lemma_channel_in_range(dst.g, src.g, src.a);
    lemma_channel_in_range(dst.b, src.b, src.a);
    assert(0 <= src.a + (dst.a * (255 - src.a)) / 255 <= 255) by (nonlinear_arith)
        requires
            0 <= src.a <= 255,
            0 <= dst.a <= 255,
    ;
}

proof fn lemma_channel_in_range(dst: u8, src: u8, alpha: u8)
    ensures
        0 <= blend_channel(dst, src, alpha) <= 255,
{
    assert(0 <= (src * alpha + dst * (255 - alpha)) / 255 <= 255) by (nonlinear_arith)
        requires
            0 <= src <= 255,
            0 <= dst <= 255,
            0 <= alpha <= 255,
    ;
}

/// Blends one pass's solid color over a pixel.
fn blend_exec(dst: Color, src: Color) -> (r: Color)
    ensures
        r == blend(dst, src),
{
    proof {
        lemma_blend_in_range(dst, src);
    }
    let a = src.a as u32;
    let na = 255 - a;
    let cr = ((src.r as u32 * a + dst.r as u32 * na) / 255) as u8;
    let cg = ((src.g as u32 * a + dst.g as u32 * na) / 255) as u8;
    let cb = ((src.b as u32 * a + dst.b as u32 * na) / 255) as u8;
    let ca = (src.a as u32 + (dst.a as u32 * na) / 255) as u8;
    Color { r: cr, g: cg, b: cb, a: ca }
}

/// The color of one pixel after every pass ran over a cleared target.
fn pixel_exec(passes: &Vec<Pass>, px: i64, py: i64) -> (c: Color)
    ensures
        c == pixel_after(passes@, px as int, py as int),
{
    let mut c = Color { r: 0, g: 0, b: 0, a: 0 };
    let mut i: usize = 0;
    while i < passes.len()
        invariant
            i <= passes@.len(),
            c == pixel_after(passes@.subrange(0, i as int), px as int, py as int),
        decreases passes@.len() - i,
    {
        let p = &passes[i];
        let fills = p.rotation == 0 && match p.paint {
            Paint::Solid { .. } => true,
            _ => false,
        } && p.quad.x0 <= px && px < p.quad.x1 && p.quad.y0 <= py && py < p.quad.y1;
        if fills {
            let color = match &p.paint {
                Paint::Solid { color, .. } => *color,
                _ => Color { r: 0, g: 0, b: 0, a: 0 },
            };
            c = blend_exec(c, color);
        }
        proof {
            assert(passes@.subrange(0, i + 1).drop_last() =~= passes@.subrange(0, i as int));
            assert(passes@.subrange(0, i + 1).last() == passes@[i as int]);
        }
        i = i + 1;
    }
    proof {
        assert(passes@.subrange(0, passes@.len() as int) =~= passes@);
    }
    c
}

/// Rasterizes a pass plan into a tightly packed RGBA8 buffer, row-major,
/// top to bottom.
pub fn rasterize(passes: &Vec<Pass>, width: u32, height: u32) -> (r: Vec<u8>)
    requires
        width as int * height as int * 4 <= usize::MAX,
    ensures
        raster_of(passes@, width, height, r@),
{
    let mut bytes: Vec<u8> = Vec::new();
    let mut py: u32 = 0;
    while py < height
        invariant
            py <= height,
            width as int * height as int * 4 <= usize::MAX,
            bytes@.len() == 4 * (py as int) * (width as int),
            forall|qx: int, qy: int|
                0 <= qx < width && 0 <= qy < py ==> {
                    let c = #[trigger] pixel_after(passes@, qx, qy);
                    let base = 4 * (qy * width + qx);
                    &&& bytes@[base] == c.r
                    &&& bytes@[base + 1] == c.g
                    &&& bytes@[base + 2] == c.b
                    &&& bytes@[base + 3] == c.a
                },
        decreases height - py,
    {
        let mut px: u32 = 0;
        while px < width
            invariant
                px <= width,
                py < height,
                width as int * height as int * 4 <= usize::MAX,
                bytes@.len() == 4 * (py as int) * (width as int) + 4 * (px as int),
                forall|qx: int, qy: int|
                    0 <= qx < width && 0 <= qy < py ==> {
                        let c = #[trigger] pixel_after(passes@, qx, qy);
                        let base = 4 * (qy * width + qx);
                        &&& bytes@[base] == c.r
                        &&& bytes@[base + 1] == c.g
                        &&& bytes@[base + 2] == c.b
                        &&& bytes@[base + 3] == c.a
                    },
                forall|qx: int|
                    0 <= qx < px ==> {
                        let c = #[trigger] pixel_after(passes@, qx, py as int);
                        let base = 4 * ((py as int) * width + qx);
                        &&& bytes@[base] == c.r
                        &&& bytes@[base + 1] == c.g
                        &&& bytes@[base + 2] == c.b
                        &&& bytes@[base + 3] == c.a
                    },
            decreases width - px,
        {
            let ghost len0 = bytes@.len();
            let c = pixel_exec(passes, px as i64, py as i64);
            bytes.push(c.r);
            bytes.push(c.g);
            bytes.push(c.b);
            bytes.push(c.a);
            proof {
                assert(4 * ((py as int) * (width as int) + (px as int)) == 4 * (py as int) * (
                width as int) + 4 * (px as int)) by (nonlinear_arith);
                assert(bytes@[len0 as int] == c.r);
                assert(bytes@[len0 as int + 1] == c.g);
                assert(bytes@[len0 as int + 2] == c.b);
                assert(bytes@[len0 as int + 3] == c.a);
                assert forall|qx: int, qy: int| 0 <= qx < width && 0 <= qy < py implies {
                    let cc = #[trigger] pixel_after(passes@, qx, qy);
                    let base = 4 * (qy * width + qx);
                    &&& bytes@[base] == cc.r
                    &&& bytes@[base + 1] == cc.g
                    &&& bytes@[base + 2] == cc.b
                    &&& bytes@[base + 3] == cc.a
                } by {
                    assert(0 <= 4 * (qy * (width as int) + qx) && 4 * (qy * (width as int) + qx)
                        + 3 < len0) by (nonlinear_arith)
                        requires
                            0 <= qx < width as int,
                            0 <= qy < py as int,
                            len0 == 4 * (py as int) * (width as int) + 4 * (px as int),
                    ;
                }
                assert forall|qx: int| 0 <= qx < px + 1 implies {
                    let cc = #[trigger] pixel_after(passes@, qx, py as int);
                    let base = 4 * ((py as int) * width + qx);
                    &&& bytes@[base] == cc.r
                    &&& bytes@[base + 1] == cc.g
                    &&& bytes@[base + 2] == cc.b
                    &&& bytes@[base + 3] == cc.a
                } by {
                    assert(0 <= 4 * ((py as int) * (width as int) + qx)) by (nonlinear_arith)
                        requires
                            0 <= qx,
                            0 <= py as int,
                            0 <= width as int,
                    ;
                    if qx < px {
                        assert(4 * ((py as int) * (width as int) + qx) + 3 < len0)
                            by (nonlinear_arith)
                            requires
                                0 <= qx < px as int,
                                len0 == 4 * (py as int) * (width as int) + 4 * (px as int),
                        ;
                    }
                }
            }
            px = px + 1;
        }
        proof {
            assert(4 * ((py as int) + 1) * (width as int) == 4 * (py as int) * (width as int) + 4
                * (width as int)) by (nonlinear_arith);
            assert forall|qx: int, qy: int| 0 <= qx < width && 0 <= qy < py + 1 implies {
                let cc = #[trigger] pixel_after(passes@, qx, qy);
                let base = 4 * (qy * width + qx);
                &&& bytes@[base] == cc.r
                &&& bytes@[base + 1] == cc.g
                &&& bytes@[base + 2] == cc.b
                &&& bytes@[base + 3] == cc.a
            } by {
                if qy == py as int {
                    assert(pixel_after(passes@, qx, py as int) == pixel_after(passes@, qx, qy));
                }
            }
        }
        py = py + 1;
    }
    proof {
        assert(bytes@.len() == width as int * height as int * 4) by (nonlinear_arith)
            requires
                bytes@.len() == 4 * (height as int) * (width as int),
        ;
    }
    bytes
}

impl crate::clips::ImageClip {
    /// The surface an image clip renders as: its own decoded pixels,
    /// whatever the frame; built once per use and shared by sampling.
    pub fn render(&self) -> (r: RenderOutput)
        ensures
            r.width == self.width,
            r.height == self.height,
            r.content matches SurfaceContent::Image(b) && b@ == self.spec_bytes(),
    {
        let bytes = self.render_to_raw();
        RenderOutput { width: self.width, height: self.height, content: SurfaceContent::Image(bytes) }
    }
}

impl crate::clips::ScriptClip {
    /// Renders the current frame's elements and reads the target back as a
    /// raw pixel buffer: `width * height * 4` bytes of tightly packed
    /// RGBA8, row-major, top to bottom.
    pub fn render_to_raw(&self, loader: &mut ClipLoader, width: u32, height: u32) -> (r: Result<
        Vec<u8>,
        RenderError,
    >)
        requires
            old(loader).wf(),
            width as int * height as int * 4 <= usize::MAX,
        ensures
            final(loader).wf(),
            final(loader).spec_len() == old(loader).spec_len(),
            dens_of_map(final(loader)@) =~= dens_of_map(old(loader)@),
            (r is Ok) <==> elements_ok(
                dens_of_map(old(loader)@),
                sort_by_order_spec(self.spec_elements()),
            ),
            r matches Result::Ok(bytes) ==> exists|out: RenderOutput|
                {
                    &&& #[trigger] is_render_of(
                        dens_of_map(old(loader)@),
                        self.spec_elements(),
                        width,
                        height,
                        out,
                    )
                    &&& out.content matches SurfaceContent::Passes(ps) && raster_of(
                        ps@,
                        width,
                        height,
                        bytes@,
                    )
                },
    {
        proof {
            crate::clips::lemma_loader_view_finite(loader);
            crate::compositor::lemma_dens_dom(old(loader)@);
        }
        match self.render(loader, width, height) {
            Result::Err(e) => Result::Err(e),
            Result::Ok(out) => {
                let ghost gout = out;
                match out.content {
                    SurfaceContent::Passes(ps) => {
                        let bytes = rasterize(&ps, width, height);
                        proof {
                            assert(is_render_of(
                                dens_of_map(old(loader)@),
                                self.spec_elements(),
                                width,
                                height,
                                gout,
                            ));
                        }
                        Result::Ok(bytes)
                    },
                    SurfaceContent::Image(_) => {
                        proof {
                            assert(false);
                        }
                        Result::Err(RenderError::BoundsExceeded)
                    },
                }
            },
        }
    }
}

/// Law: a single axis-aligned, unrotated, fully opaque rectangle anchored
/// at the top-left corner with the target's own size covers the whole
/// target: the raw buffer holds the rectangle's color at every pixel, and
/// the clear color (whose alpha is zero) nowhere.
pub proof fn lemma_rect_fills_target(
    dens: Map<Seq<char>, ClipDen>,
    rct: Rect,
    width: u32,
    height: u32,
    out: RenderOutput,
    bytes: Seq<u8>,
    px: int,
    py: int,
)
    requires
        dens.dom().finite(),
        is_render_of(dens, seq![Elements::Rect(rct)], width, height, out),
        out.content matches SurfaceContent::Passes(ps) && raster_of(ps@, width, height, bytes),
        rct.position == (Vec2 { x: 0, y: 0 }),
        rct.origin == (Vec2 { x: 0, y: 0 }),
        rct.size.x == width as int,
        rct.size.y == height as int,
        rct.rotation == 0,
        rct.color.a == 255,
        0 <= px < width,
        0 <= py < height,
    ensures
        ({
            let base = 4 * (py * width + px);
            &&& bytes[base] == rct.color.r
            &&& bytes[base + 1] == rct.color.g
            &&& bytes[base + 2] == rct.color.b
            &&& bytes[base + 3] == 255
        }),
{
    let e = Elements::Rect(rct);
    let s = seq![e];
    assert(s.len() == 1);
    assert(sort_by_order_spec(s) =~= s) by {
        assert(s.drop_last() =~= Seq::<Elements>::empty());
        assert(sort_by_order_spec(Seq::<Elements>::empty()) =~= Seq::<Elements>::empty());
        assert(sort_by_order_spec(s) == crate::sort::insert_ordered(
            sort_by_order_spec(s.drop_last()),
            s.last(),
        ));
        assert(s.last() == e);
        assert(crate::sort::insert_ordered(Seq::<Elements>::empty(), e) =~= seq![e]);
    }
    let ps = out.content->Passes_0;
    assert(passes_for(dens, s, ps@));
    assert(element_passes(dens, s[0], ps@.subrange(0, 1)));
    assert(ps@.skip(1).len() == 0) by {
        assert(s.drop_first() =~= Seq::<Elements>::empty());
        assert(passes_for(dens, s.drop_first(), ps@.skip(1)));
    }
    assert(ps@.len() == 1);
    let p = ps@[0];
    assert(ps@.subrange(0, 1)[0] == p);
    assert(rect_pass_rel(p, rct));
    assert(p.quad.x0 == 0 && p.quad.y0 == 0) by {
        assert((0int * rct.size.x as int) == 0) by (nonlinear_arith);
        assert((0int * rct.size.y as int) == 0) by (nonlinear_arith);
        assert(0int / (crate::elements::FRACTION_ONE as int) == 0);
    }
    assert(pass_fills(p, px, py));
    let c = pixel_after(ps@, px, py);
    assert(c == blend(clear_color(), rct.color)) by {
        assert(ps@.drop_last() =~= Seq::<Pass>::empty());
        assert(pixel_after(Seq::<Pass>::empty(), px, py) == clear_color());
        assert(ps@.last() == p);
        assert(pass_fills(ps@.last(), px, py));
        assert(solid_color(p) == rct.color);
    }
    assert(c.r == rct.color.r && c.g == rct.color.g && c.b == rct.color.b && c.a == 255) by {
        lemma_blend_of_opaque(rct.color);
    }
}

/// Blending a fully opaque color over any pixel yields that color.
proof fn lemma_blend_of_opaque(src: Color)
    requires
        src.a == 255,
    ensures
        forall|dst: Color| #[trigger] blend(dst, src) == (Color {
            r: src.r,
            g: src.g,
            b: src.b,
            a: 255,
        }),
{
    assert forall|dst: Color| #[trigger] blend(dst, src) == (Color {
        r: src.r,
        g: src.g,
        b: src.b,
        a: 255,
    }) by {
        assert((src.r * 255 + dst.r * 0) / 255 == src.r as int) by (nonlinear_arith)
            requires
                0 <= src.r <= 255,
        ;
        assert((src.g * 255 + dst.g * 0) / 255 == src.g as int) by (nonlinear_arith)
            requires
                0 <= src.g <= 255,
        ;
        assert((src.b * 255 + dst.b * 0) / 255 == src.b as int) by (nonlinear_arith)
            requires
                0 <= src.b <= 255,
        ;
        assert((dst.a * 0) / 255 == 0) by (nonlinear_arith);
    }
}

} // verus!
