//! Clips and the clip cache.  A clip is a reusable, independently seekable
//! unit of visual content: a `ScriptClip` drives a script's engine to a
//! requested frame, an `ImageClip` holds decoded pixels and ignores frames.
//! The `ClipLoader` maps clip paths to shared instances, building them
//! lazily from a caller-supplied source and rebuilding after invalidation.

use crate::elements::Elements;
use crate::runtime::spec_tick;
use crate::runtime::state_after;
use crate::runtime::EngineState;
use crate::runtime::Script;
use crate::runtime::ScriptClipRuntime;
use vstd::prelude::*;

verus! {

/// A clip that owns a script's execution state, the script itself (for
/// re-initialization on rewind), and the last frame it reached.
pub struct ScriptClip {
    runtime: ScriptClipRuntime,
    script: Script,
    internal_frame: u32,
}

impl ScriptClip {
    /// The script this clip was built from.
    pub closed spec fn spec_script(&self) -> Script {
        self.script
    }

    /// The frame this clip last reached.
    pub closed spec fn spec_frame(&self) -> u32 {
        self.internal_frame
    }

    /// The state of the clip's engine.
    pub closed spec fn spec_state(&self) -> EngineState {
        self.runtime@
    }

    /// The element list of the frame this clip last reached.
    pub open spec fn spec_elements(&self) -> Seq<Elements> {
        self.spec_state().elements
    }

    /// The engine holds exactly the state reached by initializing from the
    /// clip's script and ticking once per frame from 0 to the internal
    /// frame: the engine's state is a pure function of script and frame.
    pub open spec fn wf(&self) -> bool {
        self.spec_state() == state_after(self.spec_script(), self.spec_frame() as nat + 1)
    }

    /// Compiles and runs the script's top level, then performs the tick
    /// that produces frame 0.
    pub fn new(script: Script) -> (r: ScriptClip)
        ensures
            r.wf(),
            r.spec_frame() == 0,
            r.spec_script() == script,
    {
        let mut runtime = ScriptClipRuntime::new();
        runtime.initialize_clip(&script);
        runtime.advance();
        proof {
            assert(state_after(script, 1) == spec_tick(state_after(script, 0)));
        }
        ScriptClip { runtime, script, internal_frame: 0 }
    }

    /// Seeks to `frame`.  Seeking to the current frame does nothing; seeking
    /// forward ticks once per frame; seeking backward re-initializes from
    /// the script and ticks forward from frame 0.  Either way the clip ends
    /// at `frame` with the engine state that frame alone determines.
    pub fn set_frame(&mut self, frame: u32)
        requires
            old(self).wf(),
        ensures
            final(self).wf(),
            final(self).spec_frame() == frame,
            final(self).spec_script() == old(self).spec_script(),
    {
        if self.internal_frame == frame {
            return ;
        }
        if self.internal_frame > frame {
            self.internal_frame = 0;
            self.runtime.initialize_clip(&self.script);
            self.runtime.advance();
            proof {
                assert(state_after(self.script, 1) == spec_tick(state_after(self.script, 0)));
            }
        }
        let mut f = self.internal_frame;
        while f < frame
            invariant
                f <= frame,
                self.script == old(self).spec_script(),
                self.runtime@ == state_after(self.script, f as nat + 1),
            decreases frame - f,
        {
            self.runtime.advance();
            f = f + 1;
            proof {
                assert(state_after(self.script, f as nat + 1) == spec_tick(
                    state_after(self.script, f as nat),
                ));
            }
        }
        self.internal_frame = frame;
    }

    /// Returns the element list of the frame this clip last reached.
    pub fn get_elements(&self) -> (r: Vec<Elements>)
        ensures
            r@ == self.spec_elements(),
    {
        self.runtime.get_elements()
    }
}

/// Law: the element list a clip shows is a pure function of its script and
/// its frame.  Any sequence of seeks ending at a frame, and a single direct
/// seek to that frame, leave equal engine states and equal element lists.
pub proof fn lemma_seek_path_independent(a: ScriptClip, b: ScriptClip)
    requires
        a.wf(),
        b.wf(),
        a.spec_script() == b.spec_script(),
        a.spec_frame() == b.spec_frame(),
    ensures
        a.spec_state() == b.spec_state(),
        a.spec_elements() == b.spec_elements(),
{
}

/// Law: rewinding is observably equivalent to a fresh start.  A clip seeked
/// backward to `k` holds the same engine state and element list as a clip
/// newly built from the same script and seeked to `k`.
pub proof fn lemma_rewind_equals_fresh(rewound: ScriptClip, fresh: ScriptClip)
    requires
        rewound.wf(),
        fresh.wf(),
        rewound.spec_script() == fresh.spec_script(),
        rewound.spec_frame() == fresh.spec_frame(),
    ensures
        rewound.spec_state() == fresh.spec_state(),
        rewound.spec_elements() == fresh.spec_elements(),
{
    lemma_seek_path_independent(rewound, fresh);
}

/// A clip of decoded pixels: tightly packed 8-bit RGBA, row-major, exactly
/// `width * height * 4` bytes.  Frame-invariant: created once, never
/// changed.
pub struct ImageClip {
    pub width: u32,
    pub height: u32,
    pub bytes: Vec<u8>,
}

impl ImageClip {
    /// The decoded pixel bytes.
    pub open spec fn spec_bytes(&self) -> Seq<u8> {
        self.bytes@
    }

    /// The byte buffer matches the dimensions.
    pub open spec fn wf(&self) -> bool {
        self.spec_bytes().len() == self.width as int * self.height as int * 4
    }

    /// Wraps decoded pixel bytes of the given dimensions.
    pub fn new(bytes: Vec<u8>, width: u32, height: u32) -> (r: ImageClip)
        requires
            bytes@.len() == width as int * height as int * 4,
        ensures
            r.wf(),
            r.width == width,
            r.height == height,
            r.spec_bytes() == bytes@,
    {
        ImageClip { width, height, bytes }
    }

    /// Every seek of an image clip is a no-op.
    pub fn set_frame(&mut self, _frame: u32)
        ensures
            *final(self) == *old(self),
    {
    }

    /// Returns a copy of the decoded pixel bytes.
    pub fn render_to_raw(&self) -> (r: Vec<u8>)
        ensures
            r@ == self.spec_bytes(),
    {
        let mut r: Vec<u8> = Vec::new();
        let mut i: usize = 0;
        while i < self.bytes.len()
            invariant
                i <= self.bytes.len(),
                r@ == self.bytes@.subrange(0, i as int),
            decreases self.bytes.len() - i,
        {
            let b = self.bytes[i];
            r.push(b);
            i = i + 1;
            proof {
                assert(r@ =~= self.bytes@.subrange(0, i as int));
            }
        }
        proof {
            assert(r@ =~= self.bytes@);
        }
        r
    }
}

/// The unit of reusable content the cache hands out.
pub enum Clips {
    ScriptClip(ScriptClip),
    ImageClip(ImageClip),
}

impl Clips {
    /// The invariant of whichever variant the clip holds.
    pub open spec fn wf(&self) -> bool {
        match self {
            Clips::ScriptClip(c) => c.wf(),
            Clips::ImageClip(c) => c.wf(),
        }
    }
}

/// Whether a path names an image clip: it ends in `.png`.  Any other path
/// names a script clip.
pub open spec fn path_is_image(s: Seq<char>) -> bool {
    &&& s.len() >= 4
    &&& s[s.len() - 4] == '.'
    &&& s[s.len() - 3] == 'p'
    &&& s[s.len() - 2] == 'n'
    &&& s[s.len() - 1] == 'g'
}

/// Decides how a path resolves: image clip or script clip.
pub fn is_image_path(path: &String) -> (r: bool)
    ensures
        r == path_is_image(path@),
{
    let s = path.as_str();
    let n = s.unicode_len();
    if n < 4 {
        return false;
    }
    let c0 = s.get_char(n - 4);
    let c1 = s.get_char(n - 3);
    let c2 = s.get_char(n - 2);
    let c3 = s.get_char(n - 1);
    c0 == '.' && c1 == 'p' && c2 == 'n' && c3 == 'g'
}

/// What a path resolved to outside the core: decoded image pixels for an
/// image path, a compiled script for any other path.
pub enum ClipSource {
    Image { bytes: Vec<u8>, width: u32, height: u32 },
    Script(Script),
}

/// The cache that maps clip paths to shared, mutably borrowable clip
/// instances.  Its view is the map from path to clip.
pub struct ClipLoader {
    entries: Vec<(String, Clips)>,
}

impl View for ClipLoader {
    type V = Map<Seq<char>, Clips>;

    closed spec fn view(&self) -> Map<Seq<char>, Clips> {
        entries_map(self.entries@)
    }
}

/// The map an entry list stands for; a later entry with the same key would
/// win, but the loader keeps keys unique.
pub open spec fn entries_map(s: Seq<(String, Clips)>) -> Map<Seq<char>, Clips>
    decreases s.len(),
{
    if s.len() == 0 {
        Map::empty()
    } else {
        entries_map(s.drop_last()).insert(s.last().0@, s.last().1)
    }
}

/// No two entries share a key.
pub open spec fn entries_unique(s: Seq<(String, Clips)>) -> bool {
    forall|i: int, j: int|
        0 <= i < j < s.len() ==> (#[trigger] s[i]).0@ != (#[trigger] s[j]).0@
}

/// A key is in the map exactly when some entry carries it.
proof fn lemma_entries_map_contains(s: Seq<(String, Clips)>, k: Seq<char>)
    ensures
        entries_map(s).contains_key(k) <==> exists|j: int| 0 <= j < s.len() && (#[trigger] s[j]).0@
            == k,
    decreases s.len(),
{
    if s.len() != 0 {
        lemma_entries_map_contains(s.drop_last(), k);
        if s.last().0@ == k {
            assert(s[s.len() - 1].0@ == k);
        } else {
            if exists|j: int| 0 <= j < s.len() && (#[trigger] s[j]).0@ == k {
                let j = choose|j: int| 0 <= j < s.len() && (#[trigger] s[j]).0@ == k;
                assert(s.drop_last()[j] == s[j]);
            }
            if exists|j: int| 0 <= j < s.drop_last().len() && (#[trigger] s.drop_last()[j]).0@
                == k {
                let j = choose|j: int|
                    0 <= j < s.drop_last().len() && (#[trigger] s.drop_last()[j]).0@ == k;
                assert(s[j].0@ == k);
            }
        }
    }
}

/// With unique keys, the map sends each entry's key to that entry's clip.
proof fn lemma_entries_map_at(s: Seq<(String, Clips)>, j: int)
    requires
        entries_unique(s),
        0 <= j < s.len(),
    ensures
        entries_map(s).contains_key(s[j].0@),
        entries_map(s)[s[j].0@] == s[j].1,
    decreases s.len(),
{
    lemma_entries_map_contains(s, s[j].0@);
    if j == s.len() - 1 {
    } else {
        assert(entries_unique(s.drop_last())) by {
            assert(forall|a: int, b: int|
                0 <= a < b < s.drop_last().len() ==> (#[trigger] s.drop_last()[a]).0@
                    != (#[trigger] s.drop_last()[b]).0@) by {
                assert(forall|a: int, b: int|
                    0 <= a < b < s.drop_last().len() ==> s.drop_last()[a] == s[a]
                        && s.drop_last()[b] == s[b]);
            }
        }
        assert(s.drop_last()[j] == s[j]);
        lemma_entries_map_at(s.drop_last(), j);
        assert(s[j].0@ != s.last().0@) by {
            assert(s[j].0@ != s[s.len() - 1].0@);
        }
    }
}

/// Removing the entry at `j` removes exactly its key from the map.
proof fn lemma_entries_map_remove(s: Seq<(String, Clips)>, j: int)
    requires
        entries_unique(s),
        0 <= j < s.len(),
    ensures
        entries_map(s.remove(j)) =~= entries_map(s).remove(s[j].0@),
    decreases s.len(),
{
    lemma_entries_map_at(s, j);
    if j == s.len() - 1 {
        assert(s.remove(j) =~= s.drop_last());
        lemma_entries_map_contains(s.drop_last(), s[j].0@);
        assert(!entries_map(s.drop_last()).contains_key(s[j].0@)) by {
            if exists|a: int| 0 <= a < s.drop_last().len() && (#[trigger] s.drop_last()[a]).0@
                == s[j].0@ {
                let a = choose|a: int|
                    0 <= a < s.drop_last().len() && (#[trigger] s.drop_last()[a]).0@ == s[j].0@;
                assert(s[a].0@ == s[j].0@);
            }
        }
        assert(entries_map(s.drop_last()) =~= entries_map(s).remove(s[j].0@));
    } else {
        assert(entries_unique(s.drop_last())) by {
            assert(forall|a: int, b: int|
                0 <= a < b < s.drop_last().len() ==> s.drop_last()[a] == s[a] && s.drop_last()[b]
                    == s[b]);
        }
        assert(s.drop_last()[j] == s[j]);
        lemma_entries_map_remove(s.drop_last(), j);
        assert(s.remove(j).drop_last() =~= s.drop_last().remove(j));
        assert(s.remove(j).last() == s.last());
        assert(s[j].0@ != s.last().0@) by {
            assert(s[j].0@ != s[s.len() - 1].0@);
        }
        assert(entries_map(s.remove(j)) =~= entries_map(s).remove(s[j].0@));
    }
}

/// An entry list stands for a finite map.
proof fn lemma_entries_map_finite(s: Seq<(String, Clips)>)
    ensures
        entries_map(s).dom().finite(),
    decreases s.len(),
{
    if s.len() == 0 {
        assert(entries_map(s).dom() =~= Set::<Seq<char>>::empty());
    } else {
        lemma_entries_map_finite(s.drop_last());
    }
}

/// The cache's view is a finite map.
pub proof fn lemma_loader_view_finite(l: &ClipLoader)
    ensures
        l@.dom().finite(),
{
    lemma_entries_map_finite(l.entries@);
}

impl ClipLoader {
    /// The number of cached clips.
    pub closed spec fn spec_len(&self) -> nat {
        self.entries@.len()
    }

    /// Keys are unique and every cached clip satisfies its invariant.
    pub closed spec fn wf(&self) -> bool {
        &&& entries_unique(self.entries@)
        &&& forall|j: int| 0 <= j < self.entries@.len() ==> (#[trigger] self.entries@[j]).1.wf()
    }

    /// Creates an empty cache.
    pub fn new() -> (r: ClipLoader)
        ensures
            r.wf(),
            r@ =~= Map::<Seq<char>, Clips>::empty(),
            r.spec_len() == 0,
    {
        ClipLoader { entries: Vec::new() }
    }

    /// Finds the entry index of `path`, tying it to the map view.
    fn find(&self, path: &String) -> (r: Option<usize>)
        requires
            self.wf(),
        ensures
            match r {
                Option::Some(i) => {
                    &&& i < self.entries@.len()
                    &&& self.entries@[i as int].0@ == path@
                    &&& self@.contains_key(path@)
                    &&& self@[path@] == self.entries@[i as int].1
                },
                Option::None => !self@.contains_key(path@),
            },
    {
        let mut i: usize = 0;
        while i < self.entries.len()
            invariant
                self.wf(),
                i <= self.entries@.len(),
                forall|j: int| 0 <= j < i ==> (#[trigger] self.entries@[j]).0@ != path@,
            decreases self.entries@.len() - i,
        {
            if self.entries[i].0 == *path {
                proof {
                    lemma_entries_map_at(self.entries@, i as int);
                }
                return Option::Some(i);
            }
            i = i + 1;
        }
        proof {
            lemma_entries_map_contains(self.entries@, path@);
        }
        Option::None
    }

    /// Whether a clip is cached under `path`.
    pub fn contains(&self, path: &String) -> (r: bool)
        ensures
            r == self@.contains_key(path@),
    {
        let mut i: usize = 0;
        while i < self.entries.len()
            invariant
                i <= self.entries@.len(),
                forall|j: int| 0 <= j < i ==> (#[trigger] self.entries@[j]).0@ != path@,
            decreases self.entries@.len() - i,
        {
            if self.entries[i].0 == *path {
                proof {
                    lemma_entries_map_contains(self.entries@, path@);
                }
                return true;
            }
            i = i + 1;
        }
        proof {
            lemma_entries_map_contains(self.entries@, path@);
        }
        false
    }

    /// Removes and returns the clip cached under `path`, leaving the rest of
    /// the cache in place; the caller puts it back with `insert`.
    pub fn take(&mut self, path: &String) -> (r: Option<Clips>)
        requires
            old(self).wf(),
        ensures
            final(self).wf(),
            old(self)@.contains_key(path@) ==> {
                &&& r matches Option::Some(c) && c == old(self)@[path@] && c.wf()
                &&& final(self)@ =~= old(self)@.remove(path@)
                &&& final(self).spec_len() == old(self).spec_len() - 1
            },
            !old(self)@.contains_key(path@) ==> {
                &&& r is None
                &&& *final(self) == *old(self)
            },
            final(self)@.contains_key(path@) == false,
    {
        let found = self.find(path);
        match found {
            Option::None => Option::None,
            Option::Some(i) => {
                proof {
                    lemma_entries_map_at(self.entries@, i as int);
                    lemma_entries_map_remove(self.entries@, i as int);
                    assert forall|a: int, b: int|
                        0 <= a < b < self.entries@.remove(i as int).len() implies (
                    #[trigger] self.entries@.remove(i as int)[a]).0@ != (#[trigger] self.entries@.remove(
                        i as int,
                    )[b]).0@ by {
                        let s = self.entries@;
                        if a < i && b < i {
                            assert(s.remove(i as int)[a] == s[a] && s.remove(i as int)[b] == s[b]);
                        } else if a < i {
                            assert(s.remove(i as int)[a] == s[a] && s.remove(i as int)[b] == s[b
                                + 1]);
                        } else {
                            assert(s.remove(i as int)[a] == s[a + 1] && s.remove(i as int)[b]
                                == s[b + 1]);
                        }
                    }
                    assert forall|j: int| 0 <= j < self.entries@.remove(i as int).len() implies (
                    #[trigger] self.entries@.remove(i as int)[j]).1.wf() by {
                        let s = self.entries@;
                        if j < i {
                            assert(s.remove(i as int)[j] == s[j]);
                        } else {
                            assert(s.remove(i as int)[j] == s[j + 1]);
                        }
                    }
                    // After removal the key is gone from the map.
                    lemma_entries_map_contains(self.entries@.remove(i as int), path@);
                }
                let entry = self.entries.remove(i);
                Option::Some(entry.1)
            },
        }
    }

    /// Caches `clip` under `path`, which must not be cached yet.
    pub fn insert(&mut self, path: &String, clip: Clips)
        requires
            old(self).wf(),
            !old(self)@.contains_key(path@),
            clip.wf(),
        ensures
            final(self).wf(),
            final(self)@ =~= old(self)@.insert(path@, clip),
            final(self).spec_len() == old(self).spec_len() + 1,
    {
        proof {
            lemma_entries_map_contains(self.entries@, path@);
        }
        let key = path.clone();
        self.entries.push((key, clip));
        proof {
            assert(self.entries@.drop_last() =~= old(self).entries@);
            assert forall|a: int, b: int| 0 <= a < b < self.entries@.len() implies (
            #[trigger] self.entries@[a]).0@ != (#[trigger] self.entries@[b]).0@ by {
                if b < self.entries@.len() - 1 {
                    assert(self.entries@[a] == old(self).entries@[a]);
                    assert(self.entries@[b] == old(self).entries@[b]);
                } else {
                    assert(self.entries@[a] == old(self).entries@[a]);
                }
            }
        }
    }

    /// Whether the clip cached under `path` is an image clip.
    pub fn has_image(&self, path: &String) -> (r: bool)
        requires
            self.wf(),
        ensures
            r == (self@.contains_key(path@) && self@[path@] is ImageClip),
    {
        let found = self.find(path);
        match found {
            Option::None => false,
            Option::Some(i) => match &self.entries[i].1 {
                Clips::ImageClip(_) => true,
                Clips::ScriptClip(_) => false,
            },
        }
    }

    /// Evicts the clip cached under `path`, if any; the next `get` for the
    /// path rebuilds from scratch.
    pub fn invalidate(&mut self, path: &String)
        requires
            old(self).wf(),
        ensures
            final(self).wf(),
            final(self)@ =~= old(self)@.remove(path@),
            !final(self)@.contains_key(path@),
    {
        let _taken = self.take(path);
    }

    /// Builds a fresh clip for `path` from `source` without caching it: an
    /// image path takes decoded pixels whose length matches the dimensions,
    /// any other path takes a script, whose clip starts at frame 0.  A
    /// source of the wrong kind, or pixels of the wrong length, give `None`.
    pub fn get_new(&self, path: &String, source: ClipSource) -> (r: Option<Clips>)
        ensures
            match r {
                Option::Some(c) => {
                    &&& c.wf()
                    &&& match c {
                        Clips::ImageClip(img) => {
                            &&& path_is_image(path@)
                            &&& source matches ClipSource::Image { bytes, width, height } && img.width
                                == width && img.height == height && img.spec_bytes() == bytes@
                        },
                        Clips::ScriptClip(sc) => {
                            &&& !path_is_image(path@)
                            &&& source matches ClipSource::Script(s) && sc.spec_script() == s
                            &&& sc.spec_frame() == 0
                        },
                    }
                },
                Option::None => match source {
                    ClipSource::Image { bytes, width, height } => !path_is_image(path@) || bytes@.len()
                        != width as int * height as int * 4,
                    ClipSource::Script(_) => path_is_image(path@),
                },
            },
    {
        if is_image_path(path) {
            match source {
                ClipSource::Image { bytes, width, height } => {
                    let wq = width as u128;
                    let hq = height as u128;
                    proof {
                        assert(wq * hq * 4 < 0x100000000000000000u128) by (nonlinear_arith)
                            requires
                                wq < 0x100000000,
                                hq < 0x100000000,
                        ;
                    }
                    if bytes.len() as u128 == wq * hq * 4 {
                        Option::Some(Clips::ImageClip(ImageClip::new(bytes, width, height)))
                    } else {
                        Option::None
                    }
                },
                ClipSource::Script(_) => Option::None,
            }
        } else {
            match source {
                ClipSource::Script(s) => Option::Some(Clips::ScriptClip(ScriptClip::new(s))),
                ClipSource::Image { .. } => Option::None,
            }
        }
    }

    /// Returns the clip cached under `path`, building and caching it from
    /// `source` when absent.  Callers within one tick observe the same
    /// instance.  `None` when the clip is absent and the source is missing
    /// or of the wrong kind.
    pub fn get(&mut self, path: &String, source: Option<ClipSource>) -> (r: Option<&Clips>)
        requires
            old(self).wf(),
        ensures
            final(self).wf(),
            match r {
                Option::Some(c) => {
                    &&& final(self)@.contains_key(path@)
                    &&& *c == final(self)@[path@]
                    &&& old(self)@.contains_key(path@) ==> *final(self) == *old(self) && *c == old(
                        self,
                    )@[path@]
                    &&& !old(self)@.contains_key(path@) ==> {
                        &&& final(self)@ =~= old(self)@.insert(path@, *c)
                        &&& c.wf()
                        &&& match c {
                            Clips::ScriptClip(sc) => {
                                &&& !path_is_image(path@)
                                &&& sc.spec_frame() == 0
                                &&& source matches Option::Some(ClipSource::Script(s))
                                    && sc.spec_script() == s
                            },
                            Clips::ImageClip(img) => {
                                &&& path_is_image(path@)
                                &&& source matches Option::Some(
                                    ClipSource::Image { bytes, width, height },
                                ) && img.width == width && img.height == height
                                    && img.spec_bytes() == bytes@
                            },
                        }
                    }
                },
                Option::None => *final(self) == *old(self) && !old(self)@.contains_key(path@),
            },
            (r is None) <==> (!old(self)@.contains_key(path@) && match source {
                Option::None => true,
                Option::Some(ClipSource::Image { bytes, width, height }) => !path_is_image(path@)
                    || bytes@.len() != width as int * height as int * 4,
                Option::Some(ClipSource::Script(_)) => path_is_image(path@),
            }),
    {
        let found = self.find(path);
        match found {
            Option::Some(i) => Option::Some(&self.entries[i].1),
            Option::None => {
                match source {
                    Option::None => Option::None,
                    Option::Some(src) => {
                        match self.get_new(path, src) {
                            Option::None => Option::None,
                            Option::Some(clip) => {
                                self.insert(path, clip);
                                match self.find(path) {
                                    Option::Some(i) => Option::Some(&self.entries[i].1),
                                    Option::None => {
                                        proof {
                                            assert(false);
                                        }
                                        Option::None
                                    },
                                }
                            },
                        }
                    },
                }
            },
        }
    }
}

} // verus!
