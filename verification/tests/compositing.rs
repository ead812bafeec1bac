//! The compositor and the raw-pixel path: pass geometry, recursive clip
//! composition, text layout, failure cases, and pixel output.

use std::rc::Rc;
use vector_engine::clips::ClipLoader;
use vector_engine::clips::ClipSource;
use vector_engine::clips::Clips;
use vector_engine::compositor::Paint;
use vector_engine::compositor::RenderError;
use vector_engine::compositor::SurfaceContent;
use vector_engine::elements::Color;
use vector_engine::elements::Ellipse;
use vector_engine::elements::Elements;
use vector_engine::elements::FontAtlas;
use vector_engine::elements::Rect;
use vector_engine::elements::Text;
use vector_engine::elements::Vec2;
use vector_engine::elements::Clip;
use vector_engine::runtime::SceneOp;
use vector_engine::runtime::Script;
use vector_engine::worker::preview_frame;

fn rgba(r: u8, g: u8, b: u8, a: u8) -> Color {
    Color { r, g, b, a }
}

fn static_script(elems: Vec<Elements>) -> Script {
    Script {
        setup: Rc::new(elems.into_iter().map(SceneOp::Emit).collect()),
        roots: Rc::new(vec![]),
    }
}

fn plain_rect(x: i64, y: i64, w: i64, h: i64, color: Color, order: i64) -> Rect {
    Rect {
        position: Vec2 { x, y },
        origin: Vec2 { x: 0, y: 0 },
        size: Vec2 { x: w, y: h },
        rotation: 0,
        color,
        radius: 0,
        order,
    }
}

fn pixel(bytes: &[u8], width: u32, px: u32, py: u32) -> (u8, u8, u8, u8) {
    let base = (4 * (py * width + px)) as usize;
    (bytes[base], bytes[base + 1], bytes[base + 2], bytes[base + 3])
}

#[test]
fn rect_pass_carries_exact_geometry() {
    let r = Rect {
        position: Vec2 { x: 100, y: 50 },
        origin: Vec2 { x: 500, y: 500 },
        size: Vec2 { x: 40, y: 20 },
        rotation: 314,
        color: rgba(9, 8, 7, 255),
        radius: 5,
        order: 2,
    };
    let p = r.render();
    assert_eq!(p.quad.x0, 80);
    assert_eq!(p.quad.y0, 40);
    assert_eq!(p.quad.x1, 120);
    assert_eq!(p.quad.y1, 60);
    assert_eq!(p.rotation, 314);
    assert_eq!(p.pivot, Vec2 { x: 100, y: 50 });
    assert_eq!(p.paint, Paint::Solid { color: rgba(9, 8, 7, 255), radius: 5 });
}

#[test]
fn ellipse_pass_never_rotates() {
    let e = Ellipse {
        position: Vec2 { x: 10, y: 10 },
        origin: Vec2 { x: 1000, y: 0 },
        size: Vec2 { x: 8, y: 4 },
        color: rgba(1, 2, 3, 4),
        order: 0,
    };
    let p = e.render();
    assert_eq!(p.quad.x0, 2);
    assert_eq!(p.quad.y0, 10);
    assert_eq!(p.quad.x1, 10);
    assert_eq!(p.quad.y1, 14);
    assert_eq!(p.rotation, 0);
    assert_eq!(p.paint, Paint::EllipseMask { color: rgba(1, 2, 3, 4) });
}

#[test]
fn full_size_rect_covers_every_pixel() {
    // A single axis-aligned, unrotated rect anchored at the top-left with
    // the target's own size: the rect's color everywhere, clear nowhere.
    let color = rgba(10, 20, 30, 255);
    let clip = vector_engine::clips::ScriptClip::new(static_script(vec![Elements::Rect(
        plain_rect(0, 0, 8, 6, color, 0),
    )]));
    let mut loader = ClipLoader::new();
    let bytes = clip.render_to_raw(&mut loader, 8, 6).unwrap();
    assert_eq!(bytes.len(), 8 * 6 * 4);
    for py in 0..6 {
        for px in 0..8 {
            assert_eq!(pixel(&bytes, 8, px, py), (10, 20, 30, 255));
        }
    }
}

#[test]
fn partial_rect_leaves_the_clear_color_outside() {
    let color = rgba(200, 0, 0, 255);
    let clip = vector_engine::clips::ScriptClip::new(static_script(vec![Elements::Rect(
        plain_rect(1, 1, 2, 2, color, 0),
    )]));
    let mut loader = ClipLoader::new();
    let bytes = clip.render_to_raw(&mut loader, 4, 4).unwrap();
    assert_eq!(pixel(&bytes, 4, 0, 0), (0, 0, 0, 0));
    assert_eq!(pixel(&bytes, 4, 1, 1), (200, 0, 0, 255));
    assert_eq!(pixel(&bytes, 4, 2, 2), (200, 0, 0, 255));
    assert_eq!(pixel(&bytes, 4, 3, 3), (0, 0, 0, 0));
}

#[test]
fn higher_order_draws_on_top() {
    let red = rgba(255, 0, 0, 255);
    let blue = rgba(0, 0, 255, 255);
    let clip = vector_engine::clips::ScriptClip::new(static_script(vec![
        Elements::Rect(plain_rect(0, 0, 4, 4, blue, 5)),
        Elements::Rect(plain_rect(0, 0, 4, 4, red, 1)),
    ]));
    let mut loader = ClipLoader::new();
    let bytes = clip.render_to_raw(&mut loader, 4, 4).unwrap();
    // The blue rect carries the higher order key and lands on top even
    // though it was emitted first.
    assert_eq!(pixel(&bytes, 4, 2, 2), (0, 0, 255, 255));
}

#[test]
fn alpha_blends_source_over_destination() {
    let below = rgba(100, 100, 100, 255);
    let above = rgba(200, 0, 0, 128);
    let clip = vector_engine::clips::ScriptClip::new(static_script(vec![
        Elements::Rect(plain_rect(0, 0, 2, 2, below, 0)),
        Elements::Rect(plain_rect(0, 0, 2, 2, above, 1)),
    ]));
    let mut loader = ClipLoader::new();
    let bytes = clip.render_to_raw(&mut loader, 2, 2).unwrap();
    // (200*128 + 100*127) / 255 = 150 (truncating), alpha stays 255.
    assert_eq!(pixel(&bytes, 2, 0, 0), (150, 49, 49, 255));
}

#[test]
fn rotated_passes_leave_the_raw_buffer_untouched() {
    let mut r = plain_rect(0, 0, 4, 4, rgba(9, 9, 9, 255), 0);
    r.rotation = 100;
    let clip = vector_engine::clips::ScriptClip::new(static_script(vec![Elements::Rect(r)]));
    let mut loader = ClipLoader::new();
    let bytes = clip.render_to_raw(&mut loader, 4, 4).unwrap();
    // The pass is in the plan, but rotated geometry is the device
    // backend's; the raw path keeps the clear color.
    assert_eq!(pixel(&bytes, 4, 2, 2), (0, 0, 0, 0));
}

#[test]
fn composition_is_transparent_for_nested_clips() {
    // A clip element referencing another script clip at a fixed frame must
    // render identically whether through a parent pass or directly.
    let sub_path = String::from("nested.ts");
    let sub_scene = vec![Elements::Rect(plain_rect(0, 0, 4, 4, rgba(3, 6, 9, 255), 0))];

    let mut loader = ClipLoader::new();
    assert!(loader.get(&sub_path, Some(ClipSource::Script(static_script(sub_scene)))).is_some());

    let parent = vector_engine::clips::ScriptClip::new(static_script(vec![Elements::Clip(Clip {
        clip: sub_path.clone(),
        frame: 5,
        position: Vec2 { x: 0, y: 0 },
        origin: Vec2 { x: 0, y: 0 },
        size: Vec2 { x: 4, y: 4 },
        rotation: 0,
        color: rgba(255, 255, 255, 255),
        order: 0,
    })]));
    let through_parent = parent.render(&mut loader, 16, 16).unwrap();
    let embedded = match through_parent.content {
        SurfaceContent::Passes(ps) => match ps.into_iter().next().unwrap().paint {
            Paint::Surface { output, .. } => *output,
            other => panic!("expected a surface paint, got {:?}", other),
        },
        SurfaceContent::Image(_) => panic!("expected passes"),
    };

    // Directly: fetch the clip, seek it to the same frame, render it at the
    // same size against the same cache (minus itself, as the parent did).
    let mut direct_clip = match loader.take(&sub_path).unwrap() {
        Clips::ScriptClip(sc) => sc,
        Clips::ImageClip(_) => panic!("expected a script clip"),
    };
    direct_clip.set_frame(5);
    let direct = direct_clip.render(&mut loader, 4, 4).unwrap();
    assert_eq!(embedded, direct);
}

#[test]
fn clip_element_samples_an_image_clip() {
    let path = String::from("tex.png");
    let bytes: Vec<u8> = (0..16u8).collect();
    let mut loader = ClipLoader::new();
    assert!(loader
        .get(&path, Some(ClipSource::Image { bytes: bytes.clone(), width: 2, height: 2 }))
        .is_some());

    let parent = vector_engine::clips::ScriptClip::new(static_script(vec![Elements::Clip(Clip {
        clip: path.clone(),
        frame: 0,
        position: Vec2 { x: 0, y: 0 },
        origin: Vec2 { x: 0, y: 0 },
        size: Vec2 { x: 2, y: 2 },
        rotation: 0,
        color: rgba(255, 255, 255, 255),
        order: 0,
    })]));
    let out = parent.render(&mut loader, 8, 8).unwrap();
    match out.content {
        SurfaceContent::Passes(ps) => match &ps[0].paint {
            Paint::Surface { output, .. } => {
                assert_eq!(output.width, 2);
                assert_eq!(output.height, 2);
                assert_eq!(output.content, SurfaceContent::Image(bytes));
            },
            other => panic!("expected a surface paint, got {:?}", other),
        },
        SurfaceContent::Image(_) => panic!("expected passes"),
    }
    // The cache still holds the image afterwards.
    assert!(loader.contains(&path));
}

#[test]
fn missing_clip_reference_fails() {
    let parent = vector_engine::clips::ScriptClip::new(static_script(vec![Elements::Clip(Clip {
        clip: String::from("absent.ts"),
        frame: 0,
        position: Vec2 { x: 0, y: 0 },
        origin: Vec2 { x: 0, y: 0 },
        size: Vec2 { x: 2, y: 2 },
        rotation: 0,
        color: rgba(255, 255, 255, 255),
        order: 0,
    })]));
    let mut loader = ClipLoader::new();
    let r = parent.render(&mut loader, 4, 4);
    assert!(matches!(r, Err(RenderError::ClipUnavailable(_))));
}

#[test]
fn self_referencing_clip_fails_fast_with_a_cycle() {
    // "outer.ts" references "inner.ts"; "inner.ts" references itself.  The
    // inner reference is reached while "inner.ts" is already rendering.
    let inner_path = String::from("inner.ts");
    let clip_el = |path: &str| {
        Elements::Clip(Clip {
            clip: String::from(path),
            frame: 0,
            position: Vec2 { x: 0, y: 0 },
            origin: Vec2 { x: 0, y: 0 },
            size: Vec2 { x: 2, y: 2 },
            rotation: 0,
            color: rgba(255, 255, 255, 255),
            order: 0,
        })
    };
    let mut loader = ClipLoader::new();
    assert!(loader
        .get(&inner_path, Some(ClipSource::Script(static_script(vec![clip_el("inner.ts")]))))
        .is_some());
    let outer = vector_engine::clips::ScriptClip::new(static_script(vec![clip_el("inner.ts")]));
    let r = outer.render(&mut loader, 4, 4);
    assert!(matches!(r, Err(RenderError::CycleDetected(_))));
    // The cache is intact after the failure.
    assert!(loader.contains(&inner_path));
}

#[test]
fn out_of_bounds_geometry_fails() {
    let r = Rect {
        position: Vec2 { x: 0, y: 0 },
        origin: Vec2 { x: 0, y: 0 },
        size: Vec2 { x: 2_000_000_000, y: 1 },
        rotation: 0,
        color: rgba(0, 0, 0, 255),
        radius: 0,
        order: 0,
    };
    let clip = vector_engine::clips::ScriptClip::new(static_script(vec![Elements::Rect(r)]));
    let mut loader = ClipLoader::new();
    assert!(matches!(clip.render(&mut loader, 4, 4), Err(RenderError::BoundsExceeded)));
}

fn test_font(path: &str) -> FontAtlas {
    FontAtlas {
        path: String::from(path),
        rows: 2,
        columns: 3,
        dropdown: 100,
        spacing: 600,
        characters: String::from("ABCDEF"),
        width_overrides: Rc::new(vec![('A', 300)]),
    }
}

fn test_text(font: FontAtlas) -> Text {
    Text {
        text: String::from("AB"),
        font,
        position: Vec2 { x: 100, y: 100 },
        origin: Vec2 { x: 0, y: 0 },
        size: 60,
        rotation: 0,
        color: rgba(5, 6, 7, 255),
        order: 0,
    }
}

#[test]
fn text_layout_advances_by_glyph_metrics() {
    let t = test_text(test_font("font.png"));
    let passes = t.render().unwrap();
    assert_eq!(passes.len(), 2);
    // 'A' is overridden to 300 of 600: advance = 60 * 300 / 600 = 30.
    // Glyph quads are square cells of 60 * 1000 / 600 = 100 units, dropped
    // by 60 * 100 / 600 = 10 units.
    assert_eq!(passes[0].quad.x0, 100);
    assert_eq!(passes[0].quad.y0, 90);
    assert_eq!(passes[0].quad.x1, 200);
    assert_eq!(passes[0].quad.y1, 190);
    assert_eq!(passes[1].quad.x0, 130);
    // 'A' sits in cell (0, 0) and 'B' in cell (1, 0) of the 3-column grid.
    match &passes[0].paint {
        Paint::Glyph { atlas, column, row, columns, rows, dropdown, color } => {
            assert_eq!(atlas, "font.png");
            assert_eq!((*column, *row), (0, 0));
            assert_eq!((*columns, *rows), (3, 2));
            assert_eq!(*dropdown, 100);
            assert_eq!(*color, rgba(5, 6, 7, 255));
        },
        other => panic!("expected a glyph paint, got {:?}", other),
    }
    match &passes[1].paint {
        Paint::Glyph { column, row, .. } => assert_eq!((*column, *row), (1, 0)),
        other => panic!("expected a glyph paint, got {:?}", other),
    }
}

#[test]
fn text_anchoring_uses_the_whole_string_width() {
    let mut t = test_text(test_font("font.png"));
    // Total width: 30 ('A') + 60 ('B') = 90; anchored at the right edge.
    t.origin = Vec2 { x: 1000, y: 0 };
    let passes = t.render().unwrap();
    assert_eq!(passes[0].quad.x0, 10);
    assert_eq!(passes[1].quad.x0, 40);
}

#[test]
fn missing_glyph_fails() {
    let mut t = test_text(test_font("font.png"));
    t.text = String::from("AZ");
    assert!(matches!(t.render(), Err(RenderError::GlyphMissing('Z'))));
}

#[test]
fn text_requires_its_atlas_as_an_image_clip() {
    let t = test_text(test_font("font.png"));
    let clip = vector_engine::clips::ScriptClip::new(static_script(vec![Elements::Text(t)]));

    // No atlas cached: the render fails.
    let mut empty_loader = ClipLoader::new();
    assert!(matches!(
        clip.render(&mut empty_loader, 4, 4),
        Err(RenderError::FontUnavailable(_))
    ));

    // A script clip under the atlas path is not an image either.
    let mut wrong_loader = ClipLoader::new();
    assert!(wrong_loader
        .get(&String::from("other.ts"), Some(ClipSource::Script(static_script(vec![]))))
        .is_some());
    assert!(matches!(
        clip.render(&mut wrong_loader, 4, 4),
        Err(RenderError::FontUnavailable(_))
    ));

    // With the atlas image cached, one pass per character comes out.
    let mut loader = ClipLoader::new();
    assert!(loader
        .get(
            &String::from("font.png"),
            Some(ClipSource::Image { bytes: vec![0u8; 6 * 4 * 4], width: 6, height: 4 }),
        )
        .is_some());
    let out = clip.render(&mut loader, 4, 4).unwrap();
    match out.content {
        SurfaceContent::Passes(ps) => assert_eq!(ps.len(), 2),
        SurfaceContent::Image(_) => panic!("expected passes"),
    }
}

#[test]
fn text_reserves_a_fixed_placeholder_extent() {
    let t = test_text(test_font("font.png"));
    assert_eq!(t.calculate_size(), Vec2 { x: 200, y: 200 });
}

#[test]
fn preview_renders_a_cached_script_clip() {
    let path = String::from("project.ts");
    let color = rgba(40, 50, 60, 255);
    let mut loader = ClipLoader::new();
    assert!(loader
        .get(
            &path,
            Some(ClipSource::Script(static_script(vec![Elements::Rect(plain_rect(
                0, 0, 4, 2, color, 0,
            ))]))),
        )
        .is_some());
    let bytes = preview_frame(&mut loader, &path, 3, 4, 2).unwrap();
    assert_eq!(bytes.len(), 4 * 2 * 4);
    assert_eq!(pixel(&bytes, 4, 0, 0), (40, 50, 60, 255));
    // The clip stays cached for the next command.
    assert!(loader.contains(&path));
}

#[test]
fn nested_scene_renders_to_raw_end_to_end() {
    // A parent scene with a backdrop, a nested clip and a nested image,
    // rasterized: solid geometry lands in the buffer, sampled surfaces are
    // the backend's and leave their pixels to the passes below.
    let sub_path = String::from("sub.ts");
    let png_path = String::from("tex.png");
    let mut loader = ClipLoader::new();
    assert!(loader
        .get(
            &sub_path,
            Some(ClipSource::Script(static_script(vec![Elements::Rect(plain_rect(
                0,
                0,
                2,
                2,
                rgba(1, 1, 1, 255),
                0,
            ))]))),
        )
        .is_some());
    assert!(loader
        .get(&png_path, Some(ClipSource::Image { bytes: vec![9u8; 4], width: 1, height: 1 }))
        .is_some());

    let scene = vec![
        Elements::Rect(plain_rect(0, 0, 6, 6, rgba(50, 50, 50, 255), 0)),
        Elements::Clip(Clip {
            clip: sub_path,
            frame: 2,
            position: Vec2 { x: 1, y: 1 },
            origin: Vec2 { x: 0, y: 0 },
            size: Vec2 { x: 2, y: 2 },
            rotation: 0,
            color: rgba(255, 255, 255, 255),
            order: 1,
        }),
        Elements::Clip(Clip {
            clip: png_path,
            frame: 0,
            position: Vec2 { x: 3, y: 3 },
            origin: Vec2 { x: 0, y: 0 },
            size: Vec2 { x: 1, y: 1 },
            rotation: 0,
            color: rgba(255, 255, 255, 255),
            order: 2,
        }),
    ];
    let clip = vector_engine::clips::ScriptClip::new(static_script(scene));
    let bytes = clip.render_to_raw(&mut loader, 6, 6).unwrap();
    // Every pixel shows the backdrop: the nested surfaces are sampled by
    // the device backend, not the raw path.
    assert_eq!(pixel(&bytes, 6, 0, 0), (50, 50, 50, 255));
    assert_eq!(pixel(&bytes, 6, 3, 3), (50, 50, 50, 255));
    assert_eq!(bytes.len(), 6 * 6 * 4);
    // The cache is unchanged afterwards.
    assert!(loader.contains(&String::from("sub.ts")));
    assert!(loader.contains(&String::from("tex.png")));
}

#[test]
fn preview_refuses_missing_or_image_paths() {
    let mut loader = ClipLoader::new();
    assert!(matches!(
        preview_frame(&mut loader, &String::from("absent.ts"), 0, 4, 4),
        Err(RenderError::ClipUnavailable(_))
    ));
    let png = String::from("tex.png");
    assert!(loader
        .get(&png, Some(ClipSource::Image { bytes: vec![0u8; 4], width: 1, height: 1 }))
        .is_some());
    assert!(matches!(
        preview_frame(&mut loader, &png, 0, 4, 4),
        Err(RenderError::ClipUnavailable(_))
    ));
    assert!(loader.contains(&png));
}
