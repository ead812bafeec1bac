//! The compositor: turns one frame's ordered element list into a plan of
//! composite passes, recursing through the clip cache for nested clips.
//!
//! Geometry is computed here exactly: each pass carries its axis-aligned
//! quad in render units, the rotation the device backend is to apply about
//! the pass's pivot, and what the quad is painted with.  A target of
//! `width` by `height` pixels frames the render-space rectangle from
//! `(0, 0)` to `(width, height)`: an unrotated quad covers exactly the
//! pixels whose centers it spans.

use crate::clips::ClipLoader;
use crate::clips::Clips;
use crate::elements::Color;
use crate::elements::Elements;
use crate::elements::FontAtlas;
use crate::elements::Rect;
use crate::elements::Text;
use crate::elements::Vec2;
use crate::elements::COORD_LIMIT;
use crate::elements::FRACTION_ONE;
use crate::elements::TEXT_LIMIT;
use crate::runtime::state_after;
use crate::runtime::Script;
use crate::sort::sort_by_order;
use crate::sort::sort_by_order_spec;
use vstd::prelude::*;

verus! {

/// An axis-aligned box in render units, before rotation: `x0 <= x1` spans
/// left to right, `y0 <= y1` top to bottom (render space has y growing
/// downward).
#[derive(Clone, Copy, PartialEq, Eq, Structural, Debug)]
pub struct Quad {
    pub x0: i64,
    pub y0: i64,
    pub x1: i64,
    pub y1: i64,
}

/// What a pass paints its quad with.  Shaping beyond the quad (rounded
/// corners, the ellipse mask, glyph alpha, surface sampling) is the device
/// backend's fragment stage; the raw path fills solid quads only.
#[derive(Debug, PartialEq)]
pub enum Paint {
    /// A solid fill with an optional corner radius.
    Solid { color: Color, radius: i64 },
    /// A fill masked to the ellipse inscribed in the quad.
    EllipseMask { color: Color },
    /// One glyph cell of a font atlas image, sampled as a texture: cell
    /// `(column, row)` of a `columns` by `rows` grid, shifted down by
    /// `dropdown` thousandths of a cell.
    Glyph {
        atlas: String,
        column: u32,
        row: u32,
        columns: u32,
        rows: u32,
        dropdown: i64,
        color: Color,
    },
    /// A nested clip's surface, rendered off-screen and sampled as a
    /// texture.
    Surface { output: Box<RenderOutput>, color: Color },
}

/// One composite pass: draw `paint` into the target across `quad`, rotated
/// by `rotation` about `pivot`.
#[derive(Debug, PartialEq)]
pub struct Pass {
    pub quad: Quad,
    pub rotation: i64,
    pub pivot: Vec2,
    pub paint: Paint,
}

/// What a rendered surface holds.
#[derive(Debug, PartialEq)]
pub enum SurfaceContent {
    /// Composite passes, drawn in order into a cleared target.
    Passes(Vec<Pass>),
    /// Decoded image bytes: tightly packed RGBA8, row-major.
    Image(Vec<u8>),
}

/// A rendered surface: a target's dimensions and what fills it.
#[derive(Debug, PartialEq)]
pub struct RenderOutput {
    pub width: u32,
    pub height: u32,
    pub content: SurfaceContent,
}

/// Why a render failed.
#[derive(Debug)]
pub enum RenderError {
    /// A clip element references a path the cache does not hold.
    ClipUnavailable(String),
    /// A clip element references a clip that is being rendered further up
    /// the same render call: recursing would never terminate.
    CycleDetected(String),
    /// A text element's font atlas is not cached as an image clip.
    FontUnavailable(String),
    /// A text element uses a character its font atlas does not carry.
    GlyphMissing(char),
    /// An element's geometry exceeds the compositor's coordinate bounds.
    BoundsExceeded,
}

/// What the compositor reads of a cached clip: the script it plays, or the
/// image it holds.  A clip's current frame is deliberately absent: render
/// output depends on the frame a clip element asks for, never on the frame
/// a cached clip happens to stand at.
pub ghost enum ClipDen {
    Script(Script),
    Image { width: u32, height: u32, bytes: Seq<u8> },
}

/// The denotation of one cached clip.
pub open spec fn den_of(c: Clips) -> ClipDen {
    match c {
        Clips::ScriptClip(sc) => ClipDen::Script(sc.spec_script()),
        Clips::ImageClip(img) => ClipDen::Image {
            width: img.width,
            height: img.height,
            bytes: img.spec_bytes(),
        },
    }
}

/// The denotations of a whole cache.
pub open spec fn dens_of_map(m: Map<Seq<char>, Clips>) -> Map<Seq<char>, ClipDen> {
    Map::new(|k: Seq<char>| m.dom().contains(k), |k: Seq<char>| den_of(m[k]))
}

/// The quad an element's geometry produces: its position offset by the
/// normalized origin anchor times its size, extended by its size.
pub open spec fn quad_rel(q: Quad, position: Vec2, origin: Vec2, size: Vec2) -> bool {
    &&& q.x0 == position.x - (origin.x * size.x) / (FRACTION_ONE as int)
    &&& q.y0 == position.y - (origin.y * size.y) / (FRACTION_ONE as int)
    &&& q.x1 == q.x0 + size.x
    &&& q.y1 == q.y0 + size.y
}

/// The single pass a rectangle produces.
pub open spec fn rect_pass_rel(p: Pass, r: Rect) -> bool {
    &&& quad_rel(p.quad, r.position, r.origin, r.size)
    &&& p.rotation == r.rotation
    &&& p.pivot == r.position
    &&& p.paint == (Paint::Solid { color: r.color, radius: r.radius })
}

/// The single pass an ellipse produces; ellipses do not rotate.
pub open spec fn ellipse_pass_rel(p: Pass, e: crate::elements::Ellipse) -> bool {
    &&& quad_rel(p.quad, e.position, e.origin, e.size)
    &&& p.rotation == 0
    &&& p.pivot == e.position
    &&& p.paint == (Paint::EllipseMask { color: e.color })
}

/// The width override an atlas holds for a glyph: the first matching table
/// entry.
pub open spec fn spec_override(table: Seq<(char, i64)>, c: char) -> Option<i64>
    decreases table.len(),
{
    if table.len() == 0 {
        Option::None
    } else if table[0].0 == c {
        Option::Some(table[0].1)
    } else {
        spec_override(table.drop_first(), c)
    }
}

/// How far the pen advances for one glyph: the glyph's width fraction
/// (override, or the default `spacing`) scaled so that a default glyph
/// advances exactly the text's size.
pub open spec fn glyph_advance(font: FontAtlas, size: i64, c: char) -> int {
    match spec_override(font.width_overrides@, c) {
        Option::Some(w) => (size * w) / (font.spacing as int),
        Option::None => size as int,
    }
}

/// The width of the first `upto` characters of a text: the sum of their
/// advances.  Computed in advance so the whole string can be anchored by
/// its origin.
pub open spec fn text_width(font: FontAtlas, size: i64, chars: Seq<char>, upto: int) -> int
    decreases upto,
{
    if upto <= 0 {
        0
    } else {
        text_width(font, size, chars, upto - 1) + glyph_advance(font, size, chars[upto - 1])
    }
}

/// The first position of `c` in `chars`.
pub open spec fn spec_char_index(chars: Seq<char>, c: char) -> Option<int>
    decreases chars.len(),
{
    if chars.len() == 0 {
        Option::None
    } else if chars[0] == c {
        Option::Some(0int)
    } else {
        match spec_char_index(chars.drop_first(), c) {
            Option::None => Option::None,
            Option::Some(i) => Option::Some(i + 1),
        }
    }
}

/// Every character of the text has a cell in the atlas grid.
pub open spec fn glyphs_ok(t: Text) -> bool {
    forall|i: int|
        0 <= i < t.text@.len() ==> spec_char_index(t.font.characters@, #[trigger] t.text@[i])
            is Some
}

/// The pass the text's `i`th character produces: a square glyph cell scaled
/// to the text size, advanced past the preceding characters, anchored by
/// the origin against the whole string's width, and sampling the atlas cell
/// the character stands in.
pub open spec fn text_pass_rel(p: Pass, t: Text, i: int) -> bool {
    let total = text_width(t.font, t.size, t.text@, t.text@.len() as int);
    let cell = (t.size * (FRACTION_ONE as int)) / (t.font.spacing as int);
    let drop = (t.size * t.font.dropdown) / (t.font.spacing as int);
    let offx = t.position.x - (total * t.origin.x) / (FRACTION_ONE as int);
    let offy = t.position.y - (t.size * t.origin.y) / (FRACTION_ONE as int);
    let pen = text_width(t.font, t.size, t.text@, i);
    &&& p.quad.x0 == offx + pen
    &&& p.quad.y0 == offy - drop
    &&& p.quad.x1 == p.quad.x0 + cell
    &&& p.quad.y1 == p.quad.y0 + cell
    &&& p.rotation == t.rotation
    &&& p.pivot == t.position
    &&& match p.paint {
        Paint::Glyph { atlas, column, row, columns, rows, dropdown, color } => {
            &&& atlas@ == t.font.path@
            &&& columns == t.font.columns
            &&& rows == t.font.rows
            &&& dropdown == t.font.dropdown
            &&& color == t.color
            &&& spec_char_index(t.font.characters@, t.text@[i]) matches Option::Some(ci)
                && column == ci % (t.font.columns as int) && row == ci / (t.font.columns as int)
        },
        _ => false,
    }
}

/// How many passes one element contributes to the plan.
pub open spec fn pass_count(e: Elements) -> int {
    match e {
        Elements::Text(t) => t.text@.len() as int,
        _ => 1,
    }
}

/// The passes one element contributes, against the cache denotations
/// `dens`.  For a clip element the single pass samples a fresh surface that
/// must itself be a render of the referenced clip at the element's frame,
/// with the referenced path out of scope inside it: a clip that reaches
/// itself again cannot render.
pub open spec fn element_passes(dens: Map<Seq<char>, ClipDen>, e: Elements, eps: Seq<Pass>) -> bool
    decreases dens.dom().len(), 0nat, 0nat,
        when dens.dom().finite()
{
    match e {
        Elements::Rect(r) => eps.len() == 1 && rect_pass_rel(eps[0], r),
        Elements::Ellipse(el) => eps.len() == 1 && ellipse_pass_rel(eps[0], el),
        Elements::Text(t) => {
            &&& eps.len() == t.text@.len()
            &&& forall|i: int| 0 <= i < eps.len() ==> text_pass_rel(#[trigger] eps[i], t, i)
        },
        Elements::Clip(c) => {
            &&& eps.len() == 1
            &&& quad_rel(eps[0].quad, c.position, c.origin, c.size)
            &&& eps[0].rotation == c.rotation
            &&& eps[0].pivot == c.position
            &&& dens.contains_key(c.clip@)
            &&& match eps[0].paint {
                Paint::Surface { output, color } => {
                    &&& color == c.color
                    &&& match dens[c.clip@] {
                        ClipDen::Image { width, height, bytes } => {
                            &&& output.width == width
                            &&& output.height == height
                            &&& output.content matches SurfaceContent::Image(b) && b@ == bytes
                        },
                        ClipDen::Script(script) => is_render_of(
                            dens.remove(c.clip@),
                            state_after(script, c.frame as nat + 1).elements,
                            c.size.x as u32,
                            c.size.y as u32,
                            *output,
                        ),
                    }
                },
                _ => false,
            }
        },
    }
}

/// The pass list a sorted element list produces: each element's passes in
/// element order.
pub open spec fn passes_for(
    dens: Map<Seq<char>, ClipDen>,
    selems: Seq<Elements>,
    ps: Seq<Pass>,
) -> bool
    decreases dens.dom().len(), 1nat, selems.len(),
        when dens.dom().finite()
{
    if selems.len() == 0 {
        ps.len() == 0
    } else {
        let n = pass_count(selems[0]);
        &&& ps.len() >= n
        &&& element_passes(dens, selems[0], ps.subrange(0, n))
        &&& passes_for(dens, selems.drop_first(), ps.skip(n))
    }
}

/// What it means for `out` to be the render of `elems` into a `width` by
/// `height` target, against the cache denotations `dens`: the elements,
/// stable-sorted by order, produce its passes.
pub open spec fn is_render_of(
    dens: Map<Seq<char>, ClipDen>,
    elems: Seq<Elements>,
    width: u32,
    height: u32,
    out: RenderOutput,
) -> bool
    decreases dens.dom().len(), 2nat, 0nat,
        when dens.dom().finite()
{
    &&& out.width == width
    &&& out.height == height
    &&& out.content matches SurfaceContent::Passes(ps) && passes_for(
        dens,
        sort_by_order_spec(elems),
        ps@,
    )
}

/// Whether one element can render against `dens`: its geometry is in
/// bounds, a text's atlas is cached as an image and carries every glyph,
/// and a clip reference is cached and, when a script, can itself render at
/// the referenced frame with its own path out of scope.
pub open spec fn element_ok(dens: Map<Seq<char>, ClipDen>, e: Elements) -> bool
    decreases dens.dom().len(), 0nat, 0nat,
        when dens.dom().finite()
{
    &&& e.wf()
    &&& match e {
        Elements::Rect(_) => true,
        Elements::Ellipse(_) => true,
        Elements::Text(t) => {
            &&& dens.contains_key(t.font.path@)
            &&& dens[t.font.path@] is Image
            &&& glyphs_ok(t)
        },
        Elements::Clip(c) => {
            &&& dens.contains_key(c.clip@)
            &&& match dens[c.clip@] {
                ClipDen::Image { .. } => true,
                ClipDen::Script(script) => elements_ok(
                    dens.remove(c.clip@),
                    sort_by_order_spec(state_after(script, c.frame as nat + 1).elements),
                ),
            }
        },
    }
}

/// Whether every element of a sorted list can render against `dens`.
pub open spec fn elements_ok(dens: Map<Seq<char>, ClipDen>, selems: Seq<Elements>) -> bool
    decreases dens.dom().len(), 1nat, selems.len(),
        when dens.dom().finite()
{
    if selems.len() == 0 {
        true
    } else {
        element_ok(dens, selems[0]) && elements_ok(dens, selems.drop_first())
    }
}

/// Decides whether a vector's components are within the coordinate bounds.
fn vec2_bounded_exec(v: Vec2) -> (r: bool)
    ensures
        r == crate::elements::vec2_bounded(v),
{
    v.x >= -COORD_LIMIT && v.x <= COORD_LIMIT && v.y >= -COORD_LIMIT && v.y <= COORD_LIMIT
}

/// Decides whether a size is nonnegative and within bounds.
fn vec2_size_ok_exec(v: Vec2) -> (r: bool)
    ensures
        r == crate::elements::vec2_size_ok(v),
{
    v.x >= 0 && v.x <= COORD_LIMIT && v.y >= 0 && v.y <= COORD_LIMIT
}

/// Decides whether an anchor is within the normalized range.
fn vec2_origin_ok_exec(v: Vec2) -> (r: bool)
    ensures
        r == crate::elements::vec2_origin_ok(v),
{
    v.x >= 0 && v.x <= FRACTION_ONE && v.y >= 0 && v.y <= FRACTION_ONE
}

/// Decides a font atlas's invariant.
fn font_wf_exec(f: &FontAtlas) -> (r: bool)
    ensures
        r == f.wf(),
{
    if !(f.rows >= 1 && f.columns >= 1 && f.characters.as_str().unicode_len() <= 0x7fffffff
        && f.dropdown >= 0 && f.dropdown <= FRACTION_ONE && f.spacing >= 1 && f.spacing
        <= FRACTION_ONE) {
        return false;
    }
    let table: &Vec<(char, i64)> = &f.width_overrides;
    let mut i: usize = 0;
    while i < table.len()
        invariant
            i <= table@.len(),
            table@ == f.width_overrides@,
            1 <= f.rows,
            1 <= f.columns,
            f.characters@.len() <= 0x7fffffff,
            0 <= f.dropdown <= FRACTION_ONE,
            1 <= f.spacing <= FRACTION_ONE,
            forall|j: int| 0 <= j < i ==> 0 <= (#[trigger] table@[j]).1 <= FRACTION_ONE,
        decreases table@.len() - i,
    {
        let w = table[i].1;
        if !(w >= 0 && w <= FRACTION_ONE) {
            return false;
        }
        i = i + 1;
    }
    true
}

/// Decides an element's well-formedness.
pub fn element_wf_exec(e: &Elements) -> (r: bool)
    ensures
        r == e.wf(),
{
    match e {
        Elements::Rect(r) => vec2_bounded_exec(r.position) && vec2_origin_ok_exec(r.origin)
            && vec2_size_ok_exec(r.size),
        Elements::Ellipse(el) => vec2_bounded_exec(el.position) && vec2_origin_ok_exec(el.origin)
            && vec2_size_ok_exec(el.size),
        Elements::Clip(c) => vec2_bounded_exec(c.position) && vec2_origin_ok_exec(c.origin)
            && vec2_size_ok_exec(c.size),
        Elements::Text(t) => vec2_bounded_exec(t.position) && vec2_origin_ok_exec(t.origin)
            && t.size >= 0 && t.size <= COORD_LIMIT && t.text.as_str().unicode_len() <= TEXT_LIMIT
            && font_wf_exec(&t.font),
    }
}

/// A product of nonnegative bounded factors is nonnegative and bounded.
proof fn lemma_mul_bounds(a: int, b: int, amax: int, bmax: int)
    requires
        0 <= a <= amax,
        0 <= b <= bmax,
    ensures
        0 <= a * b <= amax * bmax,
{
    assert(0 <= a * b <= amax * bmax) by (nonlinear_arith)
        requires
            0 <= a <= amax,
            0 <= b <= bmax,
    ;
}

/// Dividing a nonnegative value by a positive one shrinks it.
proof fn lemma_div_bounds(a: int, b: int)
    requires
        0 <= a,
        1 <= b,
    ensures
        0 <= a / b <= a,
{
    assert(0 <= a / b <= a) by (nonlinear_arith)
        requires
            0 <= a,
            1 <= b,
    ;
}

/// An override value taken from a bounded table is bounded.
proof fn lemma_override_bounds(table: Seq<(char, i64)>, c: char)
    requires
        forall|j: int| 0 <= j < table.len() ==> 0 <= (#[trigger] table[j]).1 <= FRACTION_ONE,
    ensures
        spec_override(table, c) matches Option::Some(w) ==> 0 <= w <= FRACTION_ONE,
    decreases table.len(),
{
    if table.len() != 0 && table[0].0 != c {
        assert forall|j: int| 0 <= j < table.drop_first().len() implies 0 <= (
        #[trigger] table.drop_first()[j]).1 <= FRACTION_ONE by {
            assert(table.drop_first()[j] == table[j + 1]);
        }
        lemma_override_bounds(table.drop_first(), c);
    }
}

/// Skipping entries that do not match leaves the override lookup unchanged.
proof fn lemma_override_skip(table: Seq<(char, i64)>, c: char, i: int)
    requires
        0 <= i <= table.len(),
        forall|j: int| 0 <= j < i ==> (#[trigger] table[j]).0 != c,
    ensures
        spec_override(table, c) == spec_override(table.skip(i), c),
    decreases i,
{
    if i > 0 {
        assert(table[0].0 != c);
        lemma_override_skip(table.drop_first(), c, i - 1);
        assert(table.drop_first().skip(i - 1) =~= table.skip(i));
    } else {
        assert(table.skip(0) =~= table);
    }
}

/// Looks a glyph up in the width-override table.
fn override_of(table: &Vec<(char, i64)>, c: char) -> (r: Option<i64>)
    ensures
        r == spec_override(table@, c),
{
    let mut i: usize = 0;
    while i < table.len()
        invariant
            i <= table@.len(),
            forall|j: int| 0 <= j < i ==> (#[trigger] table@[j]).0 != c,
        decreases table@.len() - i,
    {
        let entry = table[i];
        if entry.0 == c {
            proof {
                lemma_override_skip(table@, c, i as int);
                assert(table@.skip(i as int)[0] == table@[i as int]);
            }
            return Option::Some(entry.1);
        }
        i = i + 1;
    }
    proof {
        lemma_override_skip(table@, c, table@.len() as int);
        assert(table@.skip(table@.len() as int) =~= Seq::<(char, i64)>::empty());
    }
    Option::None
}

/// How far the pen advances for one glyph; bounded by the scaled size.
fn advance_of(font: &FontAtlas, size: i64, c: char) -> (r: i64)
    requires
        font.wf(),
        0 <= size <= COORD_LIMIT,
    ensures
        r == glyph_advance(*font, size, c),
        0 <= r <= 1_000_000_000_000,
{
    proof {
        lemma_override_bounds(font.width_overrides@, c);
        assert((COORD_LIMIT as int) * (FRACTION_ONE as int) == 1_000_000_000_000)
            by (nonlinear_arith)
            requires
                COORD_LIMIT == 1_000_000_000,
                FRACTION_ONE == 1000,
        ;
    }
    match override_of(&font.width_overrides, c) {
        Option::Some(w) => {
            proof {
                lemma_mul_bounds(size as int, w as int, COORD_LIMIT as int, FRACTION_ONE as int);
            }
            let scaled = size * w;
            proof {
                lemma_div_bounds(scaled as int, font.spacing as int);
            }
            let q = scaled / font.spacing;
            q
        },
        Option::None => size,
    }
}

/// The whole string's width, for anchoring: the sum of its glyph advances.
fn width_of(t: &Text) -> (r: i64)
    requires
        t.wf(),
    ensures
        r == text_width(t.font, t.size, t.text@, t.text@.len() as int),
        0 <= r <= t.text@.len() * 1_000_000_000_000,
{
    let s = t.text.as_str();
    let n = s.unicode_len();
    let mut acc: i64 = 0;
    let mut i: usize = 0;
    while i < n
        invariant
            i <= n,
            n == t.text@.len(),
            t.wf(),
            s@ == t.text@,
            acc == text_width(t.font, t.size, t.text@, i as int),
            0 <= acc <= i * 1_000_000_000_000,
        decreases n - i,
    {
        let c = s.get_char(i);
        let a = advance_of(&t.font, t.size, c);
        acc = acc + a;
        i = i + 1;
    }
    acc
}

/// A found glyph index lies within the glyph string.
proof fn lemma_char_index_in_range(chars: Seq<char>, c: char)
    ensures
        spec_char_index(chars, c) matches Option::Some(i) ==> 0 <= i < chars.len(),
    decreases chars.len(),
{
    if chars.len() != 0 && chars[0] != c {
        lemma_char_index_in_range(chars.drop_first(), c);
    }
}

/// Skipping characters that do not match shifts the glyph index lookup.
proof fn lemma_char_index_skip(chars: Seq<char>, c: char, i: int)
    requires
        0 <= i <= chars.len(),
        forall|j: int| 0 <= j < i ==> chars[j] != c,
    ensures
        spec_char_index(chars, c) == match spec_char_index(chars.skip(i), c) {
            Option::None => Option::<int>::None,
            Option::Some(k) => Option::<int>::Some(k + i),
        },
    decreases i,
{
    if i > 0 {
        assert(chars[0] != c);
        lemma_char_index_skip(chars.drop_first(), c, i - 1);
        assert(chars.drop_first().skip(i - 1) =~= chars.skip(i));
    } else {
        assert(chars.skip(0) =~= chars);
    }
}

/// Finds a character's cell index in the atlas's glyph string.
fn char_index_of(chars: &String, c: char) -> (r: Option<usize>)
    ensures
        match r {
            Option::Some(i) => spec_char_index(chars@, c) == Option::<int>::Some(i as int),
            Option::None => spec_char_index(chars@, c) is None,
        },
{
    let s = chars.as_str();
    let n = s.unicode_len();
    let mut i: usize = 0;
    while i < n
        invariant
            i <= n,
            n == chars@.len(),
            s@ == chars@,
            forall|j: int| 0 <= j < i ==> chars@[j] != c,
        decreases n - i,
    {
        let here = s.get_char(i);
        if here == c {
            proof {
                lemma_char_index_skip(chars@, c, i as int);
                assert(chars@.skip(i as int)[0] == chars@[i as int]);
            }
            return Option::Some(i);
        }
        i = i + 1;
    }
    proof {
        lemma_char_index_skip(chars@, c, chars@.len() as int);
        assert(chars@.skip(chars@.len() as int) =~= Seq::<char>::empty());
    }
    Option::None
}

impl Rect {
    /// The composite pass this rectangle contributes.
    pub fn render(&self) -> (p: Pass)
        requires
            self.wf(),
        ensures
            rect_pass_rel(p, *self),
    {
        proof {
            lemma_mul_bounds(
                self.origin.x as int,
                self.size.x as int,
                FRACTION_ONE as int,
                COORD_LIMIT as int,
            );
            lemma_mul_bounds(
                self.origin.y as int,
                self.size.y as int,
                FRACTION_ONE as int,
                COORD_LIMIT as int,
            );
            lemma_div_bounds(self.origin.x as int * self.size.x as int, FRACTION_ONE as int);
            lemma_div_bounds(self.origin.y as int * self.size.y as int, FRACTION_ONE as int);
        }
        let ox = (self.origin.x * self.size.x) / FRACTION_ONE;
        let oy = (self.origin.y * self.size.y) / FRACTION_ONE;
        let x0 = self.position.x - ox;
        let y0 = self.position.y - oy;
        Pass {
            quad: Quad { x0, y0, x1: x0 + self.size.x, y1: y0 + self.size.y },
            rotation: self.rotation,
            pivot: self.position,
            paint: Paint::Solid { color: self.color, radius: self.radius },
        }
    }
}

impl crate::elements::Ellipse {
    /// The composite pass this ellipse contributes; ellipses do not rotate.
    pub fn render(&self) -> (p: Pass)
        requires
            self.wf(),
        ensures
            ellipse_pass_rel(p, *self),
    {
        proof {
            lemma_mul_bounds(
                self.origin.x as int,
                self.size.x as int,
                FRACTION_ONE as int,
                COORD_LIMIT as int,
            );
            lemma_mul_bounds(
                self.origin.y as int,
                self.size.y as int,
                FRACTION_ONE as int,
                COORD_LIMIT as int,
            );
            lemma_div_bounds(self.origin.x as int * self.size.x as int, FRACTION_ONE as int);
            lemma_div_bounds(self.origin.y as int * self.size.y as int, FRACTION_ONE as int);
        }
        let ox = (self.origin.x * self.size.x) / FRACTION_ONE;
        let oy = (self.origin.y * self.size.y) / FRACTION_ONE;
        let x0 = self.position.x - ox;
        let y0 = self.position.y - oy;
        Pass {
            quad: Quad { x0, y0, x1: x0 + self.size.x, y1: y0 + self.size.y },
            rotation: 0,
            pivot: self.position,
            paint: Paint::EllipseMask { color: self.color },
        }
    }
}

impl Text {
    /// The composite passes this text contributes: one glyph quad per
    /// character, advanced by the glyph metrics and anchored by the whole
    /// string's width.  Fails when the atlas is missing a character.
    pub fn render(&self) -> (r: Result<Vec<Pass>, RenderError>)
        requires
            self.wf(),
        ensures
            match r {
                Result::Ok(ps) => {
                    &&& glyphs_ok(*self)
                    &&& ps@.len() == self.text@.len()
                    &&& forall|i: int|
                        0 <= i < ps@.len() ==> text_pass_rel(#[trigger] ps@[i], *self, i)
                },
                Result::Err(e) => !glyphs_ok(*self) && e is GlyphMissing,
            },
    {
        let total = width_of(self);
        proof {
            lemma_div_bounds(self.size as int * FRACTION_ONE as int, self.font.spacing as int);
            lemma_mul_bounds(
                self.size as int,
                self.font.dropdown as int,
                COORD_LIMIT as int,
                FRACTION_ONE as int,
            );
            lemma_div_bounds(self.size as int * self.font.dropdown as int, self.font.spacing as int);
            lemma_mul_bounds(
                total as int,
                self.origin.x as int,
                4_096_000_000_000_000,
                FRACTION_ONE as int,
            );
            lemma_div_bounds(total as int * self.origin.x as int, FRACTION_ONE as int);
            lemma_mul_bounds(
                self.size as int,
                self.origin.y as int,
                COORD_LIMIT as int,
                FRACTION_ONE as int,
            );
            lemma_div_bounds(self.size as int * self.origin.y as int, FRACTION_ONE as int);
        }
        let cell = (self.size * FRACTION_ONE) / self.font.spacing;
        let drop = (self.size * self.font.dropdown) / self.font.spacing;
        let offx = self.position.x - (total * self.origin.x) / FRACTION_ONE;
        let offy = self.position.y - (self.size * self.origin.y) / FRACTION_ONE;
        let s = self.text.as_str();
        let n = s.unicode_len();
        let mut passes: Vec<Pass> = Vec::new();
        let mut pen: i64 = 0;
        let mut i: usize = 0;
        while i < n
            invariant
                i <= n,
                n == self.text@.len(),
                self.wf(),
                s@ == self.text@,
                total == text_width(self.font, self.size, self.text@, self.text@.len() as int),
                cell == (self.size * (FRACTION_ONE as int)) / (self.font.spacing as int),
                drop == (self.size * self.font.dropdown) / (self.font.spacing as int),
                offx == self.position.x - (total * self.origin.x) / (FRACTION_ONE as int),
                offy == self.position.y - (self.size * self.origin.y) / (FRACTION_ONE as int),
                pen == text_width(self.font, self.size, self.text@, i as int),
                0 <= pen <= i * 1_000_000_000_000,
                0 <= total <= 4_096_000_000_000_000,
                -4_097_000_000_000_000_000 <= offx <= 4_097_000_000_000_000_000,
                -2_000_000_001 <= offy <= 2_000_000_001,
                0 <= cell <= 1_000_000_000_000,
                0 <= drop <= 1_000_000_000_000,
                passes@.len() == i,
                forall|j: int| 0 <= j < i ==> text_pass_rel(#[trigger] passes@[j], *self, j),
                forall|j: int|
                    0 <= j < i ==> spec_char_index(self.font.characters@, #[trigger] self.text@[j])
                        is Some,
            decreases n - i,
        {
            let c = s.get_char(i);
            let ci = match char_index_of(&self.font.characters, c) {
                Option::Some(ci) => ci,
                Option::None => {
                    proof {
                        assert(!glyphs_ok(*self));
                    }
                    return Result::Err(RenderError::GlyphMissing(c));
                },
            };
            let columns = self.font.columns as usize;
            proof {
                assert(columns >= 1);
            }
            let col = ci % columns;
            let row = ci / columns;
            let x0 = offx + pen;
            let y0 = offy - drop;
            let pass = Pass {
                quad: Quad { x0, y0, x1: x0 + cell, y1: y0 + cell },
                rotation: self.rotation,
                pivot: self.position,
                paint: Paint::Glyph {
                    atlas: self.font.path.clone(),
                    column: col as u32,
                    row: row as u32,
                    columns: self.font.columns,
                    rows: self.font.rows,
                    dropdown: self.font.dropdown,
                    color: self.color,
                },
            };
            proof {
                lemma_char_index_in_range(self.font.characters@, c);
                lemma_div_bounds(ci as int, columns as int);
                assert(col < columns);
                assert(ci < 0x80000000);
            }
            passes.push(pass);
            proof {
                assert(text_pass_rel(passes@[i as int], *self, i as int));
            }
            let a = advance_of(&self.font, self.size, c);
            pen = pen + a;
            i = i + 1;
        }
        Result::Ok(passes)
    }

    /// The bounding size the host reserves for a text element; a fixed
    /// placeholder extent.
    pub fn calculate_size(&self) -> (r: Vec2)
        ensures
            r == (Vec2 { x: 200, y: 200 }),
    {
        Vec2 { x: 200, y: 200 }
    }
}

/// Removing a cache entry removes exactly its denotation.
pub proof fn lemma_dens_remove(m: Map<Seq<char>, Clips>, k: Seq<char>)
    ensures
        dens_of_map(m.remove(k)) =~= dens_of_map(m).remove(k),
{
}

/// Inserting a cache entry inserts exactly its denotation.
pub proof fn lemma_dens_insert(m: Map<Seq<char>, Clips>, k: Seq<char>, c: Clips)
    ensures
        dens_of_map(m.insert(k, c)) =~= dens_of_map(m).insert(k, den_of(c)),
{
}

/// The denotations carry the same keys as the cache.
pub proof fn lemma_dens_dom(m: Map<Seq<char>, Clips>)
    ensures
        dens_of_map(m).dom() =~= m.dom(),
{
}

/// A list whose elements each render extends by one more such element.
proof fn lemma_elements_ok_push(dens: Map<Seq<char>, ClipDen>, s: Seq<Elements>, e: Elements)
    requires
        dens.dom().finite(),
        elements_ok(dens, s),
        element_ok(dens, e),
    ensures
        elements_ok(dens, s.push(e)),
    decreases s.len(),
{
    if s.len() == 0 {
        assert(s.push(e)[0] == e);
        assert(s.push(e).drop_first() =~= Seq::<Elements>::empty());
        assert(elements_ok(dens, Seq::<Elements>::empty()));
        assert(elements_ok(dens, s.push(e)) == (element_ok(dens, s.push(e)[0]) && elements_ok(
            dens,
            s.push(e).drop_first(),
        )));
    } else {
        assert(s.push(e)[0] == s[0]);
        assert(s.push(e).drop_first() =~= s.drop_first().push(e));
        lemma_elements_ok_push(dens, s.drop_first(), e);
        assert(elements_ok(dens, s.push(e)) == (element_ok(dens, s.push(e)[0]) && elements_ok(
            dens,
            s.push(e).drop_first(),
        )));
    }
}

/// A list with one element that cannot render cannot render as a whole.
proof fn lemma_elements_ok_not_at(dens: Map<Seq<char>, ClipDen>, s: Seq<Elements>, i: int)
    requires
        dens.dom().finite(),
        0 <= i < s.len(),
        !element_ok(dens, s[i]),
    ensures
        !elements_ok(dens, s),
    decreases i,
{
    if i > 0 {
        assert(s.drop_first()[i - 1] == s[i]);
        lemma_elements_ok_not_at(dens, s.drop_first(), i - 1);
    }
}

/// A pass list for a sorted prefix extends by one element's passes.
proof fn lemma_passes_for_snoc(
    dens: Map<Seq<char>, ClipDen>,
    s: Seq<Elements>,
    ps: Seq<Pass>,
    e: Elements,
    eps: Seq<Pass>,
)
    requires
        dens.dom().finite(),
        passes_for(dens, s, ps),
        element_passes(dens, e, eps),
        eps.len() == pass_count(e),
    ensures
        passes_for(dens, s.push(e), ps + eps),
    decreases s.len(),
{
    let n = pass_count(e);
    lemma_pass_count_nonneg(e);
    if s.len() == 0 {
        assert(ps.len() == 0);
        assert(s.push(e)[0] == e);
        assert((ps + eps) =~= eps);
        assert((ps + eps).subrange(0, n) =~= eps);
        assert((ps + eps).skip(n) =~= Seq::<Pass>::empty());
        assert(s.push(e).drop_first() =~= Seq::<Elements>::empty());
        assert(passes_for(dens, Seq::<Elements>::empty(), Seq::<Pass>::empty()));
        assert(passes_for(dens, s.push(e), ps + eps) == ((ps + eps).len() >= n && element_passes(
            dens,
            s.push(e)[0],
            (ps + eps).subrange(0, n),
        ) && passes_for(dens, s.push(e).drop_first(), (ps + eps).skip(n))));
    } else {
        let n0 = pass_count(s[0]);
        lemma_pass_count_nonneg(s[0]);
        assert(s.push(e)[0] == s[0]);
        assert(s.push(e).drop_first() =~= s.drop_first().push(e));
        assert((ps + eps).subrange(0, n0) =~= ps.subrange(0, n0));
        assert((ps + eps).skip(n0) =~= ps.skip(n0) + eps);
        lemma_passes_for_snoc(dens, s.drop_first(), ps.skip(n0), e, eps);
        assert(passes_for(dens, s.push(e), ps + eps) == ((ps + eps).len() >= n0 && element_passes(
            dens,
            s.push(e)[0],
            (ps + eps).subrange(0, n0),
        ) && passes_for(dens, s.push(e).drop_first(), (ps + eps).skip(n0))));
    }
}

/// The number of passes one element contributes is nonnegative.
proof fn lemma_pass_count_nonneg(e: Elements)
    ensures
        pass_count(e) >= 0,
{
}

impl crate::elements::Clip {
    /// Resolves the referenced clip, seeks it to this element's frame, and
    /// renders it into a fresh, appropriately sized off-screen surface that
    /// the returned pass samples as a textured quad.  While the referenced
    /// clip renders it is out of the cache's scope, so a reference cycle
    /// fails fast instead of recursing forever; `rendering` carries the
    /// paths currently being rendered for that diagnosis.
    pub fn render(&self, loader: &mut ClipLoader, rendering: &mut Vec<String>) -> (r: Result<
        Pass,
        RenderError,
    >)
        requires
            self.wf(),
            old(loader).wf(),
            forall|j: int|
                0 <= j < old(rendering)@.len() ==> !old(loader)@.contains_key(
                    (#[trigger] old(rendering)@[j])@,
                ),
        ensures
            final(loader).wf(),
            final(loader).spec_len() == old(loader).spec_len(),
            dens_of_map(final(loader)@) =~= dens_of_map(old(loader)@),
            final(rendering)@ == old(rendering)@,
            (r is Ok) <==> element_ok(dens_of_map(old(loader)@), Elements::Clip(*self)),
            r matches Result::Ok(p) ==> element_passes(
                dens_of_map(old(loader)@),
                Elements::Clip(*self),
                seq![p],
            ),
        decreases old(loader).spec_len(), 0nat,
    {
        proof {
            crate::clips::lemma_loader_view_finite(loader);
            lemma_dens_dom(old(loader)@);
        }
        let mut k: usize = 0;
        while k < rendering.len()
            invariant
                k <= rendering@.len(),
                *loader == *old(loader),
                old(loader).wf(),
                rendering@ == old(rendering)@,
                forall|j: int|
                    0 <= j < rendering@.len() ==> !old(loader)@.contains_key(
                        (#[trigger] rendering@[j])@,
                    ),
            decreases rendering@.len() - k,
        {
            if rendering[k] == self.clip {
                proof {
                    crate::clips::lemma_loader_view_finite(loader);
                    lemma_dens_dom(old(loader)@);
                    assert(!old(loader)@.contains_key(self.clip@));
                }
                return Result::Err(RenderError::CycleDetected(self.clip.clone()));
            }
            k = k + 1;
        }
        let taken = loader.take(&self.clip);
        let clip = match taken {
            Option::None => {
                return Result::Err(RenderError::ClipUnavailable(self.clip.clone()));
            },
            Option::Some(clip) => clip,
        };
        let output: RenderOutput = match clip {
            Clips::ImageClip(img) => {
                let out = img.render();
                loader.insert(&self.clip, Clips::ImageClip(img));
                proof {
                    lemma_dens_remove(old(loader)@, self.clip@);
                    lemma_dens_insert(old(loader)@.remove(self.clip@), self.clip@, old(
                        loader,
                    )@[self.clip@]);
                    assert(old(loader)@.remove(self.clip@).insert(
                        self.clip@,
                        old(loader)@[self.clip@],
                    ) =~= old(loader)@);
                    assert(dens_of_map(loader@) =~= dens_of_map(old(loader)@));
                }
                out
            },
            Clips::ScriptClip(sc) => {
                let mut sc = sc;
                sc.set_frame(self.frame);
                let elems = sc.get_elements();
                let key = self.clip.clone();
                rendering.push(key);
                proof {
                    crate::clips::lemma_loader_view_finite(loader);
                    lemma_dens_remove(old(loader)@, self.clip@);
                    assert(forall|j: int|
                        0 <= j < rendering@.len() ==> !loader@.contains_key(
                            (#[trigger] rendering@[j])@,
                        ));
                }
                let ghost dens_in = dens_of_map(loader@);
                let sub = render_elements(
                    loader,
                    elems,
                    self.size.x as u32,
                    self.size.y as u32,
                    rendering,
                );
                let _ = rendering.pop();
                let ghost before_insert = loader@;
                loader.insert(&self.clip, Clips::ScriptClip(sc));
                proof {
                    lemma_dens_remove(old(loader)@, self.clip@);
                    assert(dens_of_map(before_insert) =~= dens_of_map(old(loader)@).remove(
                        self.clip@,
                    ));
                    lemma_dens_insert(before_insert, self.clip@, Clips::ScriptClip(sc));
                    assert(den_of(Clips::ScriptClip(sc)) == den_of(old(loader)@[self.clip@]));
                    assert(dens_of_map(loader@) =~= dens_of_map(old(loader)@));
                    assert(rendering@ =~= old(rendering)@);
                }
                match sub {
                    Result::Err(e) => {
                        return Result::Err(e);
                    },
                    Result::Ok(out) => out,
                }
            },
        };
        proof {
            lemma_mul_bounds(
                self.origin.x as int,
                self.size.x as int,
                FRACTION_ONE as int,
                COORD_LIMIT as int,
            );
            lemma_mul_bounds(
                self.origin.y as int,
                self.size.y as int,
                FRACTION_ONE as int,
                COORD_LIMIT as int,
            );
            lemma_div_bounds(self.origin.x as int * self.size.x as int, FRACTION_ONE as int);
            lemma_div_bounds(self.origin.y as int * self.size.y as int, FRACTION_ONE as int);
        }
        let ox = (self.origin.x * self.size.x) / FRACTION_ONE;
        let oy = (self.origin.y * self.size.y) / FRACTION_ONE;
        let x0 = self.position.x - ox;
        let y0 = self.position.y - oy;
        let p = Pass {
            quad: Quad { x0, y0, x1: x0 + self.size.x, y1: y0 + self.size.y },
            rotation: self.rotation,
            pivot: self.position,
            paint: Paint::Surface { output: Box::new(output), color: self.color },
        };
        Result::Ok(p)
    }
}

/// Renders one frame's element list into a `width` by `height` target:
/// stable-sorts the elements by order and emits each element's composite
/// passes in that order, recursing through the cache for nested clips.
/// `rendering` carries the clip paths currently being rendered further up
/// the call, all of which are out of the cache while they render.
pub fn render_elements(
    loader: &mut ClipLoader,
    elems: Vec<Elements>,
    width: u32,
    height: u32,
    rendering: &mut Vec<String>,
) -> (r: Result<RenderOutput, RenderError>)
    requires
        old(loader).wf(),
        forall|j: int|
            0 <= j < old(rendering)@.len() ==> !old(loader)@.contains_key(
                (#[trigger] old(rendering)@[j])@,
            ),
    ensures
        final(loader).wf(),
        final(loader).spec_len() == old(loader).spec_len(),
        dens_of_map(final(loader)@) =~= dens_of_map(old(loader)@),
        final(rendering)@ == old(rendering)@,
        (r is Ok) <==> elements_ok(dens_of_map(old(loader)@), sort_by_order_spec(elems@)),
        r matches Result::Ok(out) ==> is_render_of(
            dens_of_map(old(loader)@),
            elems@,
            width,
            height,
            out,
        ),
    decreases old(loader).spec_len(), 1nat,
{
    proof {
        crate::clips::lemma_loader_view_finite(loader);
        lemma_dens_dom(old(loader)@);
    }
    let ghost d0 = dens_of_map(old(loader)@);
    let sorted = sort_by_order(elems);
    let mut passes: Vec<Pass> = Vec::new();
    let mut i: usize = 0;
    while i < sorted.len()
        invariant
            i <= sorted@.len(),
            sorted@ == sort_by_order_spec(elems@),
            d0 == dens_of_map(old(loader)@),
            d0.dom().finite(),
            loader.wf(),
            loader.spec_len() == old(loader).spec_len(),
            dens_of_map(loader@) == d0,
            rendering@ == old(rendering)@,
            forall|j: int|
                0 <= j < rendering@.len() ==> !loader@.contains_key((#[trigger] rendering@[j])@),
            elements_ok(d0, sorted@.subrange(0, i as int)),
            passes_for(d0, sorted@.subrange(0, i as int), passes@),
        decreases sorted@.len() - i,
    {
        let ghost prefix = sorted@.subrange(0, i as int);
        let ghost prev_passes = passes@;
        proof {
            assert(sorted@.subrange(0, i + 1).drop_last() =~= prefix);
            assert(sorted@.subrange(0, i + 1) =~= prefix.push(sorted@[i as int]));
        }
        let e = &sorted[i];
        if !element_wf_exec(e) {
            proof {
                lemma_elements_ok_not_at(d0, sorted@, i as int);
            }
            return Result::Err(RenderError::BoundsExceeded);
        }
        match e {
            Elements::Rect(rt) => {
                let p = rt.render();
                passes.push(p);
                proof {
                    assert(element_passes(d0, sorted@[i as int], seq![p]));
                    assert(passes@ =~= prev_passes + seq![p]);
                    lemma_passes_for_snoc(d0, prefix, prev_passes, sorted@[i as int], seq![p]);
                    lemma_elements_ok_push(d0, prefix, sorted@[i as int]);
                }
            },
            Elements::Ellipse(el) => {
                let p = el.render();
                passes.push(p);
                proof {
                    assert(element_passes(d0, sorted@[i as int], seq![p]));
                    assert(passes@ =~= prev_passes + seq![p]);
                    lemma_passes_for_snoc(d0, prefix, prev_passes, sorted@[i as int], seq![p]);
                    lemma_elements_ok_push(d0, prefix, sorted@[i as int]);
                }
            },
            Elements::Text(t) => {
                if !loader.has_image(&t.font.path) {
                    proof {
                        lemma_elements_ok_not_at(d0, sorted@, i as int);
                    }
                    return Result::Err(RenderError::FontUnavailable(t.font.path.clone()));
                }
                match t.render() {
                    Result::Err(err) => {
                        proof {
                            lemma_elements_ok_not_at(d0, sorted@, i as int);
                        }
                        return Result::Err(err);
                    },
                    Result::Ok(mut ps) => {
                        let ghost eps = ps@;
                        passes.append(&mut ps);
                        proof {
                            assert(element_passes(d0, sorted@[i as int], eps));
                            lemma_passes_for_snoc(d0, prefix, prev_passes, sorted@[i as int], eps);
                            lemma_elements_ok_push(d0, prefix, sorted@[i as int]);
                        }
                    },
                }
            },
            Elements::Clip(c) => {
                match c.render(loader, rendering) {
                    Result::Err(err) => {
                        proof {
                            lemma_elements_ok_not_at(d0, sorted@, i as int);
                        }
                        return Result::Err(err);
                    },
                    Result::Ok(p) => {
                        passes.push(p);
                        proof {
                            assert(passes@ =~= prev_passes + seq![p]);
                            lemma_passes_for_snoc(d0, prefix, prev_passes, sorted@[i as int], seq![
                                p,
                            ]);
                            lemma_elements_ok_push(d0, prefix, sorted@[i as int]);
                        }
                    },
                }
            },
        }
        proof {
            assert(dens_of_map(loader@) =~= d0);
            lemma_dens_dom(loader@);
            lemma_dens_dom(old(loader)@);
            assert(loader@.dom() =~= old(loader)@.dom());
            assert forall|j: int| 0 <= j < rendering@.len() implies !loader@.contains_key(
                (#[trigger] rendering@[j])@,
            ) by {
                assert(!old(loader)@.contains_key(rendering@[j]@));
            }
        }
        i = i + 1;
    }
    proof {
        assert(sorted@.subrange(0, sorted@.len() as int) =~= sorted@);
    }
    Result::Ok(RenderOutput { width, height, content: SurfaceContent::Passes(passes) })
}

impl crate::clips::ScriptClip {
    /// Renders the current frame's elements into a `width` by `height`
    /// surface: the elements are stable-sorted by order and composited one
    /// pass per element (one per character for text), with nested clips
    /// rendered recursively into fresh off-screen surfaces.
    pub fn render(&self, loader: &mut ClipLoader, width: u32, height: u32) -> (r: Result<
        RenderOutput,
        RenderError,
    >)
        requires
            old(loader).wf(),
        ensures
            final(loader).wf(),
            final(loader).spec_len() == old(loader).spec_len(),
            dens_of_map(final(loader)@) =~= dens_of_map(old(loader)@),
            (r is Ok) <==> elements_ok(
                dens_of_map(old(loader)@),
                sort_by_order_spec(self.spec_elements()),
            ),
            r matches Result::Ok(out) ==> is_render_of(
                dens_of_map(old(loader)@),
                self.spec_elements(),
                width,
                height,
                out,
            ),
    {
        let elems = self.get_elements();
        let mut rendering: Vec<String> = Vec::new();
        render_elements(loader, elems, width, height, &mut rendering)
    }
}

} // verus!
