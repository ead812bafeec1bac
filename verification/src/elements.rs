//! The element model: the drawable instructions a script produces for one
//! frame.  Elements are plain values; geometry is carried in integer render
//! units, normalized anchors and glyph metrics in `FRACTION_ONE` units.

use std::rc::Rc;
use vstd::prelude::*;

verus! {

/// Relies on std's Rc::clone: the returned handle shares the same
/// pointed-to value as the argument.
#[verifier::external_body]
pub(crate) fn rc_dup<T>(rc: &Rc<T>) -> (r: Rc<T>)
    ensures
        r == *rc,
{
    Rc::clone(rc)
}

/// Number of units that stand for the whole of a normalized quantity: an
/// `origin` of `(FRACTION_ONE, FRACTION_ONE)` anchors an element at the
/// bottom-right corner of its bounding box.
pub const FRACTION_ONE: i64 = 1000;

/// Largest magnitude allowed for a coordinate, size or glyph height, chosen
/// so that every product the compositor takes (a size times `FRACTION_ONE`,
/// a glyph advance times a text length) fits an `i64`.
pub const COORD_LIMIT: i64 = 1_000_000_000;

/// Largest number of characters a single text element may carry.
pub const TEXT_LIMIT: usize = 4096;

/// A two-component integer vector in render units.
#[derive(Clone, Copy, PartialEq, Eq, Structural, Debug)]
pub struct Vec2 {
    pub x: i64,
    pub y: i64,
}

/// An 8-bit RGBA color.
#[derive(Clone, Copy, PartialEq, Eq, Structural, Debug)]
pub struct Color {
    pub r: u8,
    pub g: u8,
    pub b: u8,
    pub a: u8,
}

/// A filled, optionally rounded rectangle.
#[derive(Clone, Copy, PartialEq, Eq, Structural, Debug)]
pub struct Rect {
    pub position: Vec2,
    /// Normalized anchor within the bounding box, in `FRACTION_ONE` units.
    pub origin: Vec2,
    pub size: Vec2,
    /// Rotation about `position`; applied by the device backend.
    pub rotation: i64,
    pub color: Color,
    /// Corner radius; consumed by the device backend's fragment stage.
    pub radius: i64,
    /// Ascending draw order key; ties keep insertion order.
    pub order: i64,
}

/// A filled axis-aligned ellipse inscribed in its bounding box.
#[derive(Clone, Copy, PartialEq, Eq, Structural, Debug)]
pub struct Ellipse {
    pub position: Vec2,
    pub origin: Vec2,
    pub size: Vec2,
    pub color: Color,
    pub order: i64,
}

/// A reference to another clip, sampled at a fixed frame and composed as a
/// textured quad.
#[derive(Debug, PartialEq)]
pub struct Clip {
    /// Path identifying the referenced clip in the clip cache.
    pub clip: String,
    /// Frame of the referenced clip to sample.
    pub frame: u32,
    pub position: Vec2,
    pub origin: Vec2,
    pub size: Vec2,
    pub rotation: i64,
    pub color: Color,
    pub order: i64,
}

/// Glyph-grid metadata over a backing image clip.  `spacing` is the default
/// glyph width and `dropdown` the baseline drop, both as fractions of a grid
/// cell in `FRACTION_ONE` units; `width_overrides` narrows or widens single
/// glyphs the same way.
#[derive(Debug, PartialEq)]
pub struct FontAtlas {
    /// Path of the backing image clip in the clip cache.
    pub path: String,
    pub rows: u32,
    pub columns: u32,
    /// Baseline drop as a fraction of a cell, in `FRACTION_ONE` units.
    pub dropdown: i64,
    /// Default glyph width as a fraction of a cell, in `FRACTION_ONE` units.
    pub spacing: i64,
    /// The glyphs the atlas holds, in grid order (row-major).
    pub characters: String,
    /// Per-glyph width overrides, in `FRACTION_ONE` units of a cell; a
    /// read-only table shared by every text element that uses the atlas.
    pub width_overrides: Rc<Vec<(char, i64)>>,
}

/// A string drawn as one textured quad per character.
#[derive(Debug, PartialEq)]
pub struct Text {
    pub text: String,
    pub font: FontAtlas,
    pub position: Vec2,
    pub origin: Vec2,
    /// Target glyph height in render units.
    pub size: i64,
    pub rotation: i64,
    pub color: Color,
    pub order: i64,
}

/// One drawable instruction of a single frame.
#[derive(Debug, PartialEq)]
pub enum Elements {
    Rect(Rect),
    Ellipse(Ellipse),
    Clip(Clip),
    Text(Text),
}

impl Elements {
    /// The z-order key this element sorts by.
    pub open spec fn spec_order(&self) -> i64 {
        match self {
            Elements::Rect(r) => r.order,
            Elements::Ellipse(e) => e.order,
            Elements::Clip(c) => c.order,
            Elements::Text(t) => t.order,
        }
    }

    /// Returns the z-order key used to sort elements before compositing.
    pub fn get_order(&self) -> (r: i64)
        ensures
            r == self.spec_order(),
    {
        match self {
            Elements::Rect(r) => r.order,
            Elements::Ellipse(e) => e.order,
            Elements::Clip(c) => c.order,
            Elements::Text(t) => t.order,
        }
    }
}

/// Both components within `COORD_LIMIT`.
pub open spec fn vec2_bounded(v: Vec2) -> bool {
    &&& -COORD_LIMIT <= v.x <= COORD_LIMIT
    &&& -COORD_LIMIT <= v.y <= COORD_LIMIT
}

/// Both components nonnegative and within `COORD_LIMIT`.
pub open spec fn vec2_size_ok(v: Vec2) -> bool {
    &&& 0 <= v.x <= COORD_LIMIT
    &&& 0 <= v.y <= COORD_LIMIT
}

/// Both components within the normalized range `0 ..= FRACTION_ONE`.
pub open spec fn vec2_origin_ok(v: Vec2) -> bool {
    &&& 0 <= v.x <= FRACTION_ONE
    &&& 0 <= v.y <= FRACTION_ONE
}

impl Rect {
    /// Geometry within the bounds the compositor's arithmetic relies on.
    pub open spec fn wf(&self) -> bool {
        &&& vec2_bounded(self.position)
        &&& vec2_origin_ok(self.origin)
        &&& vec2_size_ok(self.size)
    }
}

impl Ellipse {
    /// Geometry within the bounds the compositor's arithmetic relies on.
    pub open spec fn wf(&self) -> bool {
        &&& vec2_bounded(self.position)
        &&& vec2_origin_ok(self.origin)
        &&& vec2_size_ok(self.size)
    }
}

impl Clip {
    /// Geometry within the bounds the compositor's arithmetic relies on.
    pub open spec fn wf(&self) -> bool {
        &&& vec2_bounded(self.position)
        &&& vec2_origin_ok(self.origin)
        &&& vec2_size_ok(self.size)
    }
}

impl FontAtlas {
    /// Metadata the glyph metrics rely on: a positive grid, a positive
    /// default width, and normalized fractions.
    pub open spec fn wf(&self) -> bool {
        &&& 1 <= self.rows
        &&& 1 <= self.columns
        &&& self.characters@.len() <= 0x7fffffff
        &&& 0 <= self.dropdown <= FRACTION_ONE
        &&& 1 <= self.spacing <= FRACTION_ONE
        &&& forall|i: int|
            0 <= i < self.width_overrides@.len() ==> 0 <= (#[trigger] self.width_overrides@[i]).1
                <= FRACTION_ONE
    }
}

impl Text {
    /// Geometry and metrics within the bounds the compositor relies on.
    pub open spec fn wf(&self) -> bool {
        &&& vec2_bounded(self.position)
        &&& vec2_origin_ok(self.origin)
        &&& 0 <= self.size <= COORD_LIMIT
        &&& self.text@.len() <= TEXT_LIMIT
        &&& self.font.wf()
    }
}

impl Elements {
    /// Every element kind within the bounds the compositor relies on.
    pub open spec fn wf(&self) -> bool {
        match self {
            Elements::Rect(r) => r.wf(),
            Elements::Ellipse(e) => e.wf(),
            Elements::Clip(c) => c.wf(),
            Elements::Text(t) => t.wf(),
        }
    }
}

impl Clone for Clip {
    fn clone(&self) -> (r: Self)
        ensures
            r == *self,
    {
        Clip {
            clip: self.clip.clone(),
            frame: self.frame,
            position: self.position,
            origin: self.origin,
            size: self.size,
            rotation: self.rotation,
            color: self.color,
            order: self.order,
        }
    }
}

impl Clone for FontAtlas {
    fn clone(&self) -> (r: Self)
        ensures
            r == *self,
    {
        FontAtlas {
            path: self.path.clone(),
            rows: self.rows,
            columns: self.columns,
            dropdown: self.dropdown,
            spacing: self.spacing,
            characters: self.characters.clone(),
            width_overrides: rc_dup(&self.width_overrides),
        }
    }
}

impl Clone for Text {
    fn clone(&self) -> (r: Self)
        ensures
            r == *self,
    {
        Text {
            text: self.text.clone(),
            font: self.font.clone(),
            position: self.position,
            origin: self.origin,
            size: self.size,
            rotation: self.rotation,
            color: self.color,
            order: self.order,
        }
    }
}

impl Clone for Elements {
    fn clone(&self) -> (r: Self)
        ensures
            r == *self,
    {
        match self {
            Elements::Rect(r) => Elements::Rect(*r),
            Elements::Ellipse(e) => Elements::Ellipse(*e),
            Elements::Clip(c) => Elements::Clip(c.clone()),
            Elements::Text(t) => Elements::Text(t.clone()),
        }
    }
}

/// Copies an element list element for element.
pub fn clone_elements(v: &Vec<Elements>) -> (r: Vec<Elements>)
    ensures
        r@ == v@,
{
    let mut r: Vec<Elements> = Vec::new();
    let mut i: usize = 0;
    while i < v.len()
        invariant
            i <= v.len(),
            r@ == v@.subrange(0, i as int),
        decreases v.len() - i,
    {
        let e = v[i].clone();
        r.push(e);
        i = i + 1;
        proof {
            assert(r@ =~= v@.subrange(0, i as int));
        }
    }
    proof {
        assert(r@ =~= v@);
    }
    r
}

} // verus!
