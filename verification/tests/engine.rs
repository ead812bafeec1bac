//! The frame-advancement protocol: initialization, ticking, seeking, and
//! the same-tick handling of nested coroutine contexts.

use std::rc::Rc;
use vector_engine::clips::ScriptClip;
use vector_engine::elements::Color;
use vector_engine::elements::Elements;
use vector_engine::elements::Rect;
use vector_engine::elements::Vec2;
use vector_engine::runtime::CoStep;
use vector_engine::runtime::Coroutine;
use vector_engine::runtime::SceneOp;
use vector_engine::runtime::Script;
use vector_engine::runtime::ScriptClipRuntime;

fn rect_at(x: i64, order: i64) -> Elements {
    Elements::Rect(Rect {
        position: Vec2 { x, y: 0 },
        origin: Vec2 { x: 0, y: 0 },
        size: Vec2 { x: 10, y: 10 },
        rotation: 0,
        color: Color { r: 255, g: 0, b: 0, a: 255 },
        radius: 0,
        order,
    })
}

fn loop_of(steps: Vec<CoStep>) -> Coroutine {
    Coroutine { steps: Rc::new(steps), pc: 0 }
}

fn emit_step(e: Elements) -> CoStep {
    CoStep { ops: vec![SceneOp::Emit(e)], spawn: None }
}

/// A script whose one loop emits one rect and then pauses forever.
fn one_rect_script() -> Script {
    Script {
        setup: Rc::new(vec![]),
        roots: Rc::new(vec![loop_of(vec![emit_step(rect_at(3, 1))])]),
    }
}

/// A script that moves its one rect right by one unit per tick.
fn sliding_script() -> Script {
    Script {
        setup: Rc::new(vec![]),
        roots: Rc::new(vec![loop_of(vec![
            emit_step(rect_at(0, 1)),
            CoStep { ops: vec![SceneOp::Replace(0, rect_at(1, 1))], spawn: None },
            CoStep { ops: vec![SceneOp::Replace(0, rect_at(2, 1))], spawn: None },
        ])]),
    }
}

#[test]
fn static_setup_produces_one_frame() {
    let script = Script {
        setup: Rc::new(vec![SceneOp::Emit(rect_at(7, 2))]),
        roots: Rc::new(vec![]),
    };
    let clip = ScriptClip::new(script);
    assert_eq!(clip.get_elements(), vec![rect_at(7, 2)]);
}

#[test]
fn loop_emitting_once_pauses_forever() {
    let mut clip = ScriptClip::new(one_rect_script());
    clip.set_frame(0);
    assert_eq!(clip.get_elements(), vec![rect_at(3, 1)]);
    for frame in 1..=6u32 {
        clip.set_frame(frame);
        assert_eq!(clip.get_elements(), vec![rect_at(3, 1)]);
    }
}

#[test]
fn seek_direct_equals_seek_in_steps() {
    let mut direct = ScriptClip::new(sliding_script());
    let mut stepped = ScriptClip::new(sliding_script());
    direct.set_frame(2);
    stepped.set_frame(1);
    stepped.set_frame(2);
    assert_eq!(direct.get_elements(), stepped.get_elements());
    assert_eq!(direct.get_elements(), vec![rect_at(2, 1)]);
}

#[test]
fn rewind_equals_fresh_engine() {
    let mut rewound = ScriptClip::new(sliding_script());
    rewound.set_frame(2);
    rewound.set_frame(1);
    let mut fresh = ScriptClip::new(sliding_script());
    fresh.set_frame(1);
    assert_eq!(rewound.get_elements(), fresh.get_elements());
    assert_eq!(rewound.get_elements(), vec![rect_at(1, 1)]);
}

#[test]
fn seek_to_current_frame_changes_nothing() {
    let mut clip = ScriptClip::new(sliding_script());
    clip.set_frame(1);
    let before = clip.get_elements();
    clip.set_frame(1);
    assert_eq!(clip.get_elements(), before);
}

#[test]
fn nested_context_runs_on_the_same_tick() {
    let child = loop_of(vec![emit_step(rect_at(20, 2))]);
    let root = Coroutine {
        steps: Rc::new(vec![CoStep {
            ops: vec![SceneOp::Emit(rect_at(10, 1))],
            spawn: Some(Box::new(child)),
        }]),
        pc: 0,
    };
    let script = Script { setup: Rc::new(vec![]), roots: Rc::new(vec![root]) };
    let clip = ScriptClip::new(script);
    // The child registered during the first tick is driven on that tick.
    assert_eq!(clip.get_elements(), vec![rect_at(10, 1), rect_at(20, 2)]);
}

#[test]
fn each_tick_replaces_the_previous_frame() {
    let mut clip = ScriptClip::new(sliding_script());
    clip.set_frame(0);
    assert_eq!(clip.get_elements(), vec![rect_at(0, 1)]);
    clip.set_frame(1);
    assert_eq!(clip.get_elements(), vec![rect_at(1, 1)]);
    clip.set_frame(2);
    assert_eq!(clip.get_elements(), vec![rect_at(2, 1)]);
    clip.set_frame(9);
    assert_eq!(clip.get_elements(), vec![rect_at(2, 1)]);
}

#[test]
fn remove_and_clear_ops_edit_the_scene() {
    let script = Script {
        setup: Rc::new(vec![
            SceneOp::Emit(rect_at(1, 1)),
            SceneOp::Emit(rect_at(2, 2)),
            SceneOp::Emit(rect_at(3, 3)),
            SceneOp::Remove(1),
        ]),
        roots: Rc::new(vec![loop_of(vec![CoStep { ops: vec![SceneOp::Clear], spawn: None }])]),
    };
    let mut runtime = ScriptClipRuntime::new();
    runtime.initialize_clip(&script);
    assert_eq!(runtime.get_elements(), vec![rect_at(1, 1), rect_at(3, 3)]);
    runtime.advance();
    assert_eq!(runtime.get_elements(), vec![]);
}

#[test]
fn out_of_range_ops_do_nothing() {
    let script = Script {
        setup: Rc::new(vec![
            SceneOp::Emit(rect_at(1, 1)),
            SceneOp::Replace(5, rect_at(9, 9)),
            SceneOp::Remove(5),
        ]),
        roots: Rc::new(vec![]),
    };
    let clip = ScriptClip::new(script);
    assert_eq!(clip.get_elements(), vec![rect_at(1, 1)]);
}

#[test]
fn completed_contexts_stay_registered_and_idle() {
    let script = Script {
        setup: Rc::new(vec![]),
        roots: Rc::new(vec![loop_of(vec![emit_step(rect_at(1, 1)), emit_step(rect_at(2, 2))])]),
    };
    let mut clip = ScriptClip::new(script);
    clip.set_frame(5);
    assert_eq!(clip.get_elements(), vec![rect_at(1, 1), rect_at(2, 2)]);
}

#[test]
fn root_contexts_resume_in_registration_order() {
    let script = Script {
        setup: Rc::new(vec![]),
        roots: Rc::new(vec![
            loop_of(vec![emit_step(rect_at(1, 1)), emit_step(rect_at(2, 1))]),
            loop_of(vec![emit_step(rect_at(10, 1)), emit_step(rect_at(20, 1))]),
        ]),
    };
    let mut clip = ScriptClip::new(script);
    assert_eq!(clip.get_elements(), vec![rect_at(1, 1), rect_at(10, 1)]);
    clip.set_frame(1);
    assert_eq!(
        clip.get_elements(),
        vec![rect_at(1, 1), rect_at(10, 1), rect_at(2, 1), rect_at(20, 1)]
    );
}

#[test]
fn grandchild_contexts_register_depth_first() {
    let grandchild = loop_of(vec![emit_step(rect_at(30, 1)), emit_step(rect_at(31, 1))]);
    let child = Coroutine {
        steps: Rc::new(vec![
            CoStep { ops: vec![SceneOp::Emit(rect_at(20, 1))], spawn: Some(Box::new(grandchild)) },
            emit_step(rect_at(21, 1)),
        ]),
        pc: 0,
    };
    let root = Coroutine {
        steps: Rc::new(vec![
            CoStep { ops: vec![SceneOp::Emit(rect_at(10, 1))], spawn: Some(Box::new(child)) },
            emit_step(rect_at(11, 1)),
        ]),
        pc: 0,
    };
    let script = Script { setup: Rc::new(vec![]), roots: Rc::new(vec![root]) };
    let mut clip = ScriptClip::new(script);
    // First tick: the root spawns the child, which spawns the grandchild,
    // all driven on the same tick, depth first.
    assert_eq!(clip.get_elements(), vec![rect_at(10, 1), rect_at(20, 1), rect_at(30, 1)]);
    // Second tick: the registered order is root, child, grandchild.
    clip.set_frame(1);
    assert_eq!(
        clip.get_elements(),
        vec![
            rect_at(10, 1),
            rect_at(20, 1),
            rect_at(30, 1),
            rect_at(11, 1),
            rect_at(21, 1),
            rect_at(31, 1),
        ]
    );
}

#[test]
fn get_order_reads_each_kind() {
    assert_eq!(rect_at(0, 42).get_order(), 42);
    let e = Elements::Ellipse(vector_engine::elements::Ellipse {
        position: Vec2 { x: 0, y: 0 },
        origin: Vec2 { x: 0, y: 0 },
        size: Vec2 { x: 1, y: 1 },
        color: Color { r: 0, g: 0, b: 0, a: 0 },
        order: -7,
    });
    assert_eq!(e.get_order(), -7);
}
