//! The script execution engine: one compiled script, a flat collection of
//! resumable coroutine contexts, and the scene its ops rebuild tick by tick.
//!
//! A script's top level runs exactly once per initialization: it applies its
//! setup ops to an empty scene and registers its root coroutines.  Each tick
//! resumes every registered context exactly once; a resumed context that
//! yields a new child context registers it and drives it on the same tick,
//! recursively, so the nesting depth of control constructs is data, not host
//! recursion across ticks.  The elements of the current frame are the scene
//! as the last tick left it.

use crate::elements::clone_elements;
use crate::elements::rc_dup;
use crate::elements::Elements;
use std::rc::Rc;
use vstd::prelude::*;

verus! {

/// One mutation of the scene performed by a script's setup or by a resumed
/// coroutine context.
#[derive(Debug, PartialEq)]
pub enum SceneOp {
    /// Append an element to the scene.
    Emit(Elements),
    /// Replace the element at an index; an out-of-range index does nothing.
    Replace(usize, Elements),
    /// Remove the element at an index; an out-of-range index does nothing.
    Remove(usize),
    /// Remove every element from the scene.
    Clear,
}

/// A resumable computation registered by a script: a list of steps shared
/// with the script it came from, and the index of the next step to run.
/// A context whose steps are exhausted has completed; resuming it does
/// nothing, and it stays registered.
#[derive(Debug, PartialEq)]
pub struct Coroutine {
    /// The steps this computation runs through, one per resume.
    pub steps: Rc<Vec<CoStep>>,
    /// Index of the next step to run; at or past the end once completed.
    pub pc: usize,
}

/// What one resume of a coroutine context performs before pausing: scene
/// ops, and possibly one nested child context to register and drive on the
/// same tick.
#[derive(Debug, PartialEq)]
pub struct CoStep {
    pub ops: Vec<SceneOp>,
    pub spawn: Option<Box<Coroutine>>,
}

/// A compiled script: the setup its top level performs once per
/// initialization, and the root coroutine contexts it registers.  Both parts
/// are immutable and shared between every instance initialized from them.
#[derive(Debug, PartialEq)]
pub struct Script {
    pub setup: Rc<Vec<SceneOp>>,
    pub roots: Rc<Vec<Coroutine>>,
}

impl Clone for Coroutine {
    fn clone(&self) -> (r: Self)
        ensures
            r == *self,
    {
        Coroutine { steps: rc_dup(&self.steps), pc: self.pc }
    }
}

impl Clone for Script {
    fn clone(&self) -> (r: Self)
        ensures
            r == *self,
    {
        Script { setup: rc_dup(&self.setup), roots: rc_dup(&self.roots) }
    }
}

/// The mathematical state of an engine: its registered contexts and the
/// scene in registration order.
pub ghost struct EngineState {
    pub contexts: Seq<Coroutine>,
    pub elements: Seq<Elements>,
}

/// The scene after one op.
pub open spec fn apply_op(scene: Seq<Elements>, op: SceneOp) -> Seq<Elements> {
    match op {
        SceneOp::Emit(e) => scene.push(e),
        SceneOp::Replace(i, e) => if i < scene.len() {
            scene.update(i as int, e)
        } else {
            scene
        },
        SceneOp::Remove(i) => if i < scene.len() {
            scene.remove(i as int)
        } else {
            scene
        },
        SceneOp::Clear => Seq::empty(),
    }
}

/// The scene after a list of ops, applied left to right.
pub open spec fn apply_ops(scene: Seq<Elements>, ops: Seq<SceneOp>) -> Seq<Elements>
    decreases ops.len(),
{
    if ops.len() == 0 {
        scene
    } else {
        apply_ops(apply_op(scene, ops[0]), ops.drop_first())
    }
}

/// Whether a context has run out of steps.
pub open spec fn co_done(c: Coroutine) -> bool {
    c.pc >= c.steps@.len()
}

/// The context after one resume: the program counter moved past the step
/// that just ran.
pub open spec fn co_resumed(c: Coroutine) -> Coroutine {
    Coroutine { steps: c.steps, pc: (c.pc + 1) as usize }
}

/// One resume of a context `c` against `scene`: the resumed context, the
/// contexts newly registered during the resume (a spawned child, already
/// resumed itself, followed by its own descendants), and the scene that
/// results.
pub open spec fn run_context(c: Coroutine, scene: Seq<Elements>) -> (
    Coroutine,
    Seq<Coroutine>,
    Seq<Elements>,
)
    decreases c,
{
    if co_done(c) {
        (c, Seq::empty(), scene)
    } else {
        let step = c.steps@[c.pc as int];
        let scene1 = apply_ops(scene, step.ops@);
        match step.spawn {
            Option::None => (co_resumed(c), Seq::empty(), scene1),
            Option::Some(child) => {
                let sub = run_context(*child, scene1);
                (co_resumed(c), seq![sub.0] + sub.1, sub.2)
            },
        }
    }
}

/// One resume of each context of `cs`, left to right: the resumed contexts,
/// every context registered along the way, and the resulting scene.
pub open spec fn run_contexts(cs: Seq<Coroutine>, scene: Seq<Elements>) -> (
    Seq<Coroutine>,
    Seq<Coroutine>,
    Seq<Elements>,
)
    decreases cs.len(),
{
    if cs.len() == 0 {
        (Seq::empty(), Seq::empty(), scene)
    } else {
        let head = run_context(cs[0], scene);
        let rest = run_contexts(cs.drop_first(), head.2);
        (seq![head.0] + rest.0, head.1 + rest.1, rest.2)
    }
}

/// One discrete animation step: every registered context is resumed exactly
/// once, newly registered contexts land after the existing ones, and the
/// scene becomes the new frame's element list.
pub open spec fn spec_tick(s: EngineState) -> EngineState {
    let r = run_contexts(s.contexts, s.elements);
    EngineState { contexts: r.0 + r.1, elements: r.2 }
}

/// The engine state reached by initializing from `script` and then ticking
/// `ticks` times.  Everything an engine does is a pure function of these two
/// arguments: this is the determinism the seek protocol relies on.
pub open spec fn state_after(script: Script, ticks: nat) -> EngineState
    decreases ticks,
{
    if ticks == 0 {
        EngineState { contexts: script.roots@, elements: apply_ops(Seq::empty(), script.setup@) }
    } else {
        spec_tick(state_after(script, (ticks - 1) as nat))
    }
}

/// Hosts one compiled script and drives it forward one tick at a time.
pub struct ScriptClipRuntime {
    contexts: Vec<Coroutine>,
    elements: Vec<Elements>,
}

impl View for ScriptClipRuntime {
    type V = EngineState;

    closed spec fn view(&self) -> EngineState {
        EngineState { contexts: self.contexts@, elements: self.elements@ }
    }
}

/// Applying a list of ops and then one more is applying the extended list.
proof fn lemma_apply_ops_push(scene: Seq<Elements>, ops: Seq<SceneOp>, op: SceneOp)
    ensures
        apply_ops(scene, ops.push(op)) == apply_op(apply_ops(scene, ops), op),
    decreases ops.len(),
{
    let p = ops.push(op);
    assert(p.len() != 0);
    assert(apply_ops(scene, p) == apply_ops(apply_op(scene, p[0]), p.drop_first()));
    if ops.len() == 0 {
        assert(p[0] == op);
        assert(p.drop_first() =~= Seq::<SceneOp>::empty());
        assert(apply_ops(apply_op(scene, op), Seq::<SceneOp>::empty()) == apply_op(scene, op));
    } else {
        assert(p[0] == ops[0]);
        assert(p.drop_first() =~= ops.drop_first().push(op));
        lemma_apply_ops_push(apply_op(scene, ops[0]), ops.drop_first(), op);
    }
}

/// Resuming a list of contexts and then one more is resuming the extended
/// list.
proof fn lemma_run_contexts_push(cs: Seq<Coroutine>, c: Coroutine, scene: Seq<Elements>)
    ensures
        ({
            let a = run_contexts(cs, scene);
            let b = run_context(c, a.2);
            run_contexts(cs.push(c), scene) == (a.0.push(b.0), a.1 + b.1, b.2)
        }),
    decreases cs.len(),
{
    let a = run_contexts(cs, scene);
    let b = run_context(c, a.2);
    let p = cs.push(c);
    assert(p.len() != 0);
    let head = run_context(p[0], scene);
    let rest = run_contexts(p.drop_first(), head.2);
    assert(run_contexts(p, scene) == (seq![head.0] + rest.0, head.1 + rest.1, rest.2));
    if cs.len() == 0 {
        assert(p[0] == c);
        assert(p.drop_first() =~= Seq::<Coroutine>::empty());
        assert(head == b);
        assert(rest == (Seq::<Coroutine>::empty(), Seq::<Coroutine>::empty(), head.2));
        assert(seq![head.0] + rest.0 =~= a.0.push(b.0));
        assert(head.1 + rest.1 =~= a.1 + b.1);
    } else {
        assert(p[0] == cs[0]);
        let h0 = run_context(cs[0], scene);
        assert(head == h0);
        assert(p.drop_first() =~= cs.drop_first().push(c));
        lemma_run_contexts_push(cs.drop_first(), c, h0.2);
        let a1 = run_contexts(cs.drop_first(), h0.2);
        let b1 = run_context(c, a1.2);
        assert(rest == (a1.0.push(b1.0), a1.1 + b1.1, b1.2));
        assert(a == (seq![h0.0] + a1.0, h0.1 + a1.1, a1.2));
        assert(b1 == b);
        assert(seq![head.0] + rest.0 =~= a.0.push(b.0));
        assert(head.1 + rest.1 =~= a.1 + b.1);
    }
}

/// Applies one scene op.
fn apply_op_exec(scene: &mut Vec<Elements>, op: &SceneOp)
    ensures
        final(scene)@ == apply_op(old(scene)@, *op),
{
    match op {
        SceneOp::Emit(e) => {
            let c = e.clone();
            scene.push(c);
        },
        SceneOp::Replace(i, e) => {
            if *i < scene.len() {
                let c = e.clone();
                scene.set(*i, c);
            }
        },
        SceneOp::Remove(i) => {
            if *i < scene.len() {
                scene.remove(*i);
            }
        },
        SceneOp::Clear => {
            scene.clear();
        },
    }
}

/// Applies a list of scene ops left to right.
fn apply_ops_exec(scene: &mut Vec<Elements>, ops: &Vec<SceneOp>)
    ensures
        final(scene)@ == apply_ops(old(scene)@, ops@),
{
    let mut i: usize = 0;
    while i < ops.len()
        invariant
            i <= ops.len(),
            scene@ == apply_ops(old(scene)@, ops@.subrange(0, i as int)),
        decreases ops.len() - i,
    {
        apply_op_exec(scene, &ops[i]);
        proof {
            assert(ops@.subrange(0, i + 1).drop_last() =~= ops@.subrange(0, i as int));
            assert(ops@.subrange(0, i + 1).last() == ops@[i as int]);
            lemma_apply_ops_push(old(scene)@, ops@.subrange(0, i as int), ops@[i as int]);
            assert(ops@.subrange(0, i as int).push(ops@[i as int]) =~= ops@.subrange(0, i + 1));
        }
        i = i + 1;
    }
    proof {
        assert(ops@.subrange(0, ops@.len() as int) =~= ops@);
    }
}

impl ScriptClipRuntime {
    /// Creates an engine with no registered contexts and an empty scene.
    pub fn new() -> (r: ScriptClipRuntime)
        ensures
            r@.contexts =~= Seq::<Coroutine>::empty(),
            r@.elements =~= Seq::<Elements>::empty(),
    {
        ScriptClipRuntime { contexts: Vec::new(), elements: Vec::new() }
    }

    /// Runs the script's top level exactly once: clears the previous state,
    /// applies the setup ops to an empty scene and registers the root
    /// contexts.
    pub fn initialize_clip(&mut self, script: &Script)
        ensures
            final(self)@ == state_after(*script, 0),
    {
        self.elements = Vec::new();
        self.contexts = Vec::new();
        apply_ops_exec(&mut self.elements, &script.setup);
        let roots: &Vec<Coroutine> = &script.roots;
        let mut i: usize = 0;
        while i < roots.len()
            invariant
                i <= roots.len(),
                self.contexts@ == roots@.subrange(0, i as int),
                self@.elements == apply_ops(Seq::<Elements>::empty(), script.setup@),
            decreases roots.len() - i,
        {
            let c = roots[i].clone();
            self.contexts.push(c);
            i = i + 1;
            proof {
                assert(self.contexts@ =~= roots@.subrange(0, i as int));
            }
        }
        proof {
            assert(roots@.subrange(0, roots@.len() as int) =~= roots@);
        }
    }

    /// Resumes one context against the scene: applies its current step's
    /// ops, and if the step spawns a child, registers the child into `out`
    /// and drives it on the same tick, recursively.  Returns the resumed
    /// context; the registered contexts of the engine itself are untouched.
    fn run_context_exec(&mut self, c: Coroutine, out: &mut Vec<Coroutine>) -> (r: Coroutine)
        ensures
            ({
                let sub = run_context(c, old(self)@.elements);
                &&& r == sub.0
                &&& final(out)@ == old(out)@ + sub.1
                &&& final(self)@.elements == sub.2
                &&& final(self)@.contexts == old(self)@.contexts
            }),
        decreases c,
    {
        let steps: &Vec<CoStep> = &c.steps;
        if c.pc >= steps.len() {
            proof {
                assert(old(out)@ + Seq::<Coroutine>::empty() =~= old(out)@);
            }
            return c;
        }
        let step = &steps[c.pc];
        apply_ops_exec(&mut self.elements, &step.ops);
        let spawned: Option<Coroutine> = match &step.spawn {
            Option::None => Option::None,
            Option::Some(b) => Option::Some((**b).clone()),
        };
        let resumed = Coroutine { steps: rc_dup(&c.steps), pc: c.pc + 1 };
        match spawned {
            Option::None => {
                proof {
                    assert(old(out)@ + Seq::<Coroutine>::empty() =~= old(out)@);
                }
                resumed
            },
            Option::Some(child) => {
                let mut desc: Vec<Coroutine> = Vec::new();
                let child2 = self.run_context_exec(child, &mut desc);
                out.push(child2);
                out.append(&mut desc);
                proof {
                    let sub = run_context(c, old(self)@.elements);
                    assert(out@ =~= old(out)@ + sub.1);
                }
                resumed
            },
        }
    }

    /// Performs one discrete animation step: resumes every registered
    /// context exactly once, in order, registering and driving any contexts
    /// spawned along the way, and leaves the scene as the new frame's
    /// element list.
    pub fn advance(&mut self)
        ensures
            final(self)@ == spec_tick(old(self)@),
    {
        let n = self.contexts.len();
        let mut descendants: Vec<Coroutine> = Vec::new();
        let mut i: usize = 0;
        while i < n
            invariant
                i <= n,
                n == old(self)@.contexts.len(),
                self.contexts@.len() == n,
                self.contexts@.subrange(i as int, n as int) == old(self)@.contexts.subrange(
                    i as int,
                    n as int,
                ),
                run_contexts(old(self)@.contexts.subrange(0, i as int), old(self)@.elements) == (
                    self.contexts@.subrange(0, i as int),
                    descendants@,
                    self@.elements,
                ),
            decreases n - i,
        {
            let c = self.contexts[i].clone();
            proof {
                assert(self.contexts@.subrange(i as int, n as int)[0] == c);
                assert(old(self)@.contexts.subrange(i as int, n as int)[0] == old(
                    self,
                )@.contexts[i as int]);
                assert(old(self)@.contexts[i as int] == c);
            }
            let ghost scene_before = self@.elements;
            let c2 = self.run_context_exec(c, &mut descendants);
            let ghost prev = self.contexts@;
            self.contexts.set(i, c2);
            i = i + 1;
            proof {
                let orig = old(self)@.contexts;
                let cur = self.contexts@;
                assert forall|m: int| i as int <= m < n as int implies cur[m] == orig[m] by {
                    assert(cur[m] == prev[m]);
                    assert(prev.subrange(i - 1, n as int)[m - (i - 1)] == prev[m]);
                    assert(orig.subrange(i - 1, n as int)[m - (i - 1)] == orig[m]);
                }
                assert(cur.subrange(i as int, n as int) =~= orig.subrange(i as int, n as int));
                lemma_run_contexts_push(orig.subrange(0, i - 1), c, old(self)@.elements);
                assert(orig.subrange(0, i - 1).push(c) =~= orig.subrange(0, i as int));
                assert(cur.subrange(0, i - 1) =~= prev.subrange(0, i - 1));
                assert(cur.subrange(0, i - 1).push(c2) =~= cur.subrange(0, i as int));
                assert(run_contexts(orig.subrange(0, i - 1), old(self)@.elements).2
                    == scene_before);
            }
        }
        self.contexts.append(&mut descendants);
        proof {
            assert(old(self)@.contexts.subrange(0, n as int) =~= old(self)@.contexts);
            let r = run_contexts(old(self)@.contexts, old(self)@.elements);
            assert(self.contexts@ =~= r.0 + r.1);
        }
    }

    /// Returns the current frame's element list: the scene as the last tick
    /// (or the initialization) left it.
    pub fn get_elements(&self) -> (r: Vec<Elements>)
        ensures
            r@ == self@.elements,
    {
        clone_elements(&self.elements)
    }
}

} // verus!
