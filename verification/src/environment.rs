//! The runtime environment: an arena of scope frames.
//!
//! Every scope that ever opens — the root scope, each block, each function
//! call — is a `Frame` in one growing arena, addressed by its index.  A frame
//! records its bindings and the index of its enclosing frame; the root frame
//! has none.  Frames are never removed: a closure keeps the index of the
//! frame it was defined in, and that frame's bindings stay shared between the
//! defining scope and every later call — which is what makes closure-captured
//! variables mutable in common.
//!
//! The environment also carries the resolver's depth map: for a variable
//! reference stamped with index `i`, `locals[i]` is the number of enclosing
//! hops from the frame where the reference is evaluated to the frame that
//! declared the name.  A reference with no recorded depth is treated as
//! global and looked up in the root frame alone.  A recorded depth that
//! walks past the end of the chain violates the resolver/evaluator contract
//! and surfaces as `RuntimeError::Internal`.
//!
//! Bindings are an append-only association list searched from the most
//! recent entry, so defining or assigning appends and lookup sees the newest
//! entry for a name.

use vstd::prelude::*;
use crate::errors::RuntimeError;
use crate::errors::RunErrV;
use crate::expr::Literal;
use crate::expr::LitV;
use crate::expr::lit_view;
use crate::expr::lit_wf;
use crate::expr::clone_literal;
use crate::callable::CallV;
use crate::callable::call_wf;
use crate::native::NativeKind;
use crate::native::native_binding;
use crate::native::globals;
use crate::native::globals_view;

verus! {

/// One scope frame: its bindings and the index of its enclosing frame.
#[derive(Debug)]
pub struct Frame {
    pub values: Vec<(String, Literal)>,
    pub enclosing: Option<usize>,
}

/// The mathematical value of a frame.
pub struct FrameV {
    pub values: Seq<(Seq<char>, LitV)>,
    pub enclosing: Option<int>,
}

/// The mathematical values of a binding list, element by element.
pub open spec fn entries_view(s: Seq<(String, Literal)>) -> Seq<(Seq<char>, LitV)> {
    Seq::new(s.len(), |i: int| (s[i].0@, lit_view(s[i].1)))
}

/// `entries_view` maps the list element by element.
pub proof fn lemma_entries_view_len(s: Seq<(String, Literal)>)
    ensures
        entries_view(s).len() == s.len(),
        forall|i: int| 0 <= i < s.len()
            ==> entries_view(s)[i] == ((#[trigger] s[i]).0@, lit_view(s[i].1)),
{
}

impl View for Frame {
    type V = FrameV;

    open spec fn view(&self) -> FrameV {
        FrameV {
            values: entries_view(self.values@),
            enclosing: match self.enclosing {
                Some(p) => Some(p as int),
                None => None,
            },
        }
    }
}

/// The newest binding for `name`, if any.
pub open spec fn assoc(entries: Seq<(Seq<char>, LitV)>, name: Seq<char>) -> Option<LitV>
    decreases entries.len(),
{
    if entries.len() == 0 {
        None
    } else if entries.last().0 == name {
        Some(entries.last().1)
    } else {
        assoc(entries.drop_last(), name)
    }
}

/// Appending a binding makes it the one `assoc` finds for its name and
/// leaves every other name's binding unchanged.
pub proof fn lemma_assoc_push(entries: Seq<(Seq<char>, LitV)>, name: Seq<char>, v: LitV)
    ensures
        assoc(entries.push((name, v)), name) == Some(v),
        forall|other: Seq<char>| other != name
            ==> assoc(entries.push((name, v)), other) == assoc(entries, other),
{
    let pushed = entries.push((name, v));
    assert(pushed.last() == (name, v));
    assert(pushed.drop_last() =~= entries);
}

/// If every binding in a list is well formed at `n`, so is whatever `assoc`
/// finds.
pub proof fn lemma_assoc_wf(entries: Seq<(Seq<char>, LitV)>, name: Seq<char>, n: int)
    requires
        forall|i: int| 0 <= i < entries.len() ==> lit_wf((#[trigger] entries[i]).1, n),
        assoc(entries, name) is Some,
    ensures
        lit_wf(assoc(entries, name)->Some_0, n),
    decreases entries.len(),
{
    if entries.len() > 0 {
        if entries.last().0 == name {
        } else {
            assert forall|i: int| 0 <= i < entries.drop_last().len()
                implies lit_wf((#[trigger] entries.drop_last()[i]).1, n) by {
                assert(entries.drop_last()[i] == entries[i]);
            }
            lemma_assoc_wf(entries.drop_last(), name, n);
        }
    }
}

/// Every native binding in the root scope is well formed at any arena length.
pub proof fn lemma_globals_wf(n: int)
    requires
        n >= 1,
    ensures
        globals_view().len() == 5,
        forall|j: int| 0 <= j < globals_view().len()
            ==> lit_wf((#[trigger] globals_view()[j]).1, n),
{
    assert forall|j: int| 0 <= j < globals_view().len()
        implies lit_wf((#[trigger] globals_view()[j]).1, n) by {
        let b = globals_view()[j];
        if j == 0 {
            assert(b == native_binding(NativeKind::Clock, "clock"@));
            assert(call_wf(b.1->Callable_0, n));
        } else if j == 1 {
            assert(b == native_binding(NativeKind::Clear, "clear"@));
            assert(call_wf(b.1->Callable_0, n));
        } else if j == 2 {
            assert(b == native_binding(NativeKind::Input, "input"@));
            assert(call_wf(b.1->Callable_0, n));
        } else if j == 3 {
            assert(b == native_binding(NativeKind::Parse, "parse"@));
            assert(call_wf(b.1->Callable_0, n));
        } else {
            assert(b == native_binding(NativeKind::Print, "print"@));
            assert(call_wf(b.1->Callable_0, n));
        }
    }
}

/// The scope arena together with the resolver's depth map.
#[derive(Debug)]
pub struct Environment {
    pub frames: Vec<Frame>,
    pub locals: Vec<Option<usize>>,
}

/// The mathematical value of an environment.
pub struct EnvV {
    pub frames: Seq<FrameV>,
    pub locals: Seq<Option<int>>,
}

/// The mathematical values of the frame arena, element by element.
pub open spec fn frames_view(s: Seq<Frame>) -> Seq<FrameV> {
    Seq::new(s.len(), |i: int| s[i]@)
}

/// The mathematical values of the depth map, element by element.
pub open spec fn locals_view(s: Seq<Option<usize>>) -> Seq<Option<int>> {
    Seq::new(
        s.len(),
        |i: int| match s[i] {
            Some(d) => Some(d as int),
            None => None,
        },
    )
}

impl View for Environment {
    type V = EnvV;

    open spec fn view(&self) -> EnvV {
        EnvV { frames: frames_view(self.frames@), locals: locals_view(self.locals@) }
    }
}

/// The shape of a well-formed arena: at least the root frame, whose
/// enclosing link is absent, and every other frame's enclosing link pointing
/// strictly earlier in the arena.
pub open spec fn env_shape_wf(e: EnvV) -> bool {
    &&& e.frames.len() >= 1
    &&& e.frames[0].enclosing is None
    &&& forall|i: int| 0 <= i < e.frames.len()
        ==> match (#[trigger] e.frames[i]).enclosing {
            Some(p) => 0 <= p < i,
            None => true,
        }
}

/// Every value stored anywhere in the arena is well formed at the arena's
/// length: in particular every closure's captured frame index is live.
pub open spec fn env_vals_wf(e: EnvV) -> bool {
    forall|i: int, j: int| 0 <= i < e.frames.len() && 0 <= j < e.frames[i].values.len()
        ==> lit_wf((#[trigger] e.frames[i].values[j]).1, e.frames.len() as int)
}

/// A well-formed environment.
pub open spec fn env_wf(e: EnvV) -> bool {
    env_shape_wf(e) && env_vals_wf(e)
}

/// The frame reached from `from` after `d` enclosing hops, if the chain is
/// long enough.
pub open spec fn frame_at(e: EnvV, from: int, d: int) -> Option<int>
    recommends
        0 <= from < e.frames.len(),
    decreases d,
{
    if d <= 0 {
        Some(from)
    } else {
        match e.frames[from].enclosing {
            Some(p) => frame_at(e, p, d - 1),
            None => None,
        }
    }
}

/// The root frame reached from `from` by following enclosing links.
pub open spec fn root_of(e: EnvV, from: int) -> int
    decreases from,
        when env_shape_wf(e) && 0 <= from < e.frames.len()
{
    match e.frames[from].enclosing {
        Some(p) => root_of(e, p),
        None => from,
    }
}

/// The hop distance recorded for a reference index, if any.
pub open spec fn depth_of(e: EnvV, index: int) -> Option<int> {
    if 0 <= index < e.locals.len() {
        e.locals[index]
    } else {
        None
    }
}

/// What a variable read yields: with a recorded depth, the binding in
/// exactly that frame; with none, the binding in the root frame.  A missing
/// binding is an undefined-variable error; a depth that walks off the chain
/// is an internal-consistency violation.
pub open spec fn env_get(e: EnvV, from: int, name: Seq<char>, index: int) -> Result<
    LitV,
    RunErrV,
>
    recommends
        env_shape_wf(e),
        0 <= from < e.frames.len(),
{
    match depth_of(e, index) {
        Some(d) => match frame_at(e, from, d) {
            Some(f) => match assoc(e.frames[f].values, name) {
                Some(v) => Ok(v),
                None => Err(RunErrV::UndefinedVariable { name }),
            },
            None => Err(RunErrV::Internal),
        },
        None => match assoc(e.frames[root_of(e, from)].values, name) {
            Some(v) => Ok(v),
            None => Err(RunErrV::UndefinedVariable { name }),
        },
    }
}

/// What a variable write yields: with a recorded depth, the binding is made
/// in exactly that frame, whether or not the name was bound there; with
/// none, the root binding is replaced only if the name is already bound
/// there — assigning an undeclared global is an error, not a declaration.
pub open spec fn env_assign(e: EnvV, from: int, name: Seq<char>, v: LitV, index: int) -> Result<
    EnvV,
    RunErrV,
>
    recommends
        env_shape_wf(e),
        0 <= from < e.frames.len(),
{
    match depth_of(e, index) {
        Some(d) => match frame_at(e, from, d) {
            Some(f) => Ok(env_bind(e, f, name, v)),
            None => Err(RunErrV::Internal),
        },
        None => {
            let root = root_of(e, from);
            if assoc(e.frames[root].values, name) is Some {
                Ok(env_bind(e, root, name, v))
            } else {
                Err(RunErrV::UndefinedVariable { name })
            }
        },
    }
}

/// The environment with one more binding in frame `f`.
pub open spec fn env_bind(e: EnvV, f: int, name: Seq<char>, v: LitV) -> EnvV {
    EnvV {
        frames: e.frames.update(
            f,
            FrameV { values: e.frames[f].values.push((name, v)), enclosing: e.frames[f].enclosing },
        ),
        locals: e.locals,
    }
}

/// Shadowing is confined: binding a name in one frame — a declaration in an
/// inner scope, or an assignment resolved to it — makes that name's newest
/// binding there, leaves every other name in that frame as it was, and
/// leaves every other frame untouched.  An inner scope's bindings therefore
/// never affect an outer scope's.
pub proof fn lemma_bind_confined(e: EnvV, f: int, name: Seq<char>, v: LitV)
    requires
        0 <= f < e.frames.len(),
    ensures
        env_bind(e, f, name, v).frames.len() == e.frames.len(),
        forall|g: int| 0 <= g < e.frames.len() && g != f
            ==> #[trigger] env_bind(e, f, name, v).frames[g] == e.frames[g],
        assoc(env_bind(e, f, name, v).frames[f].values, name) == Some(v),
        forall|other: Seq<char>| other != name ==> #[trigger] assoc(
            env_bind(e, f, name, v).frames[f].values,
            other,
        ) == assoc(e.frames[f].values, other),
{
    lemma_assoc_push(e.frames[f].values, name, v);
}

/// The newest binding for `name` in one frame's list, cloned.
fn frame_lookup(values: &Vec<(String, Literal)>, name: &String) -> (r: Option<Literal>)
    ensures
        match r {
            Some(v) => assoc(entries_view(values@), name@) == Some(v@),
            None => assoc(entries_view(values@), name@) is None,
        },
{
    proof {
        lemma_entries_view_len(values@);
    }
    let mut i: usize = values.len();
    while i > 0
        invariant
            i <= values@.len(),
            entries_view(values@).len() == values@.len(),
            forall|j: int| 0 <= j < values@.len()
                ==> entries_view(values@)[j] == ((#[trigger] values@[j]).0@, lit_view(values@[j].1)),
            assoc(entries_view(values@).take(values@.len() as int), name@)
                == assoc(entries_view(values@).take(i as int), name@),
        decreases i,
    {
        i = i - 1;
        let ghost pre = entries_view(values@).take(i + 1);
        proof {
            assert(pre.last() == entries_view(values@)[i as int]);
            assert(pre.drop_last() =~= entries_view(values@).take(i as int));
        }
        if values[i].0 == *name {
            let v = clone_literal(&values[i].1);
            proof {
                assert(entries_view(values@).take(values@.len() as int) =~= entries_view(
                    values@,
                ));
            }
            return Some(v);
        }
    }
    proof {
        assert(entries_view(values@).take(values@.len() as int) =~= entries_view(values@));
        assert(entries_view(values@).take(0) =~= Seq::<(Seq<char>, LitV)>::empty());
    }
    None
}

impl Environment {
    /// A fresh environment: one root frame holding the native bindings, and
    /// the given depth map.
    pub fn new(locals: Vec<Option<usize>>) -> (r: Self)
        ensures
            r@.frames.len() == 1,
            r@.frames[0].values == globals_view(),
            r@.frames[0].enclosing is None,
            r@.locals == locals_view(locals@),
            env_wf(r@),
    {
        let root = Frame { values: globals(), enclosing: None };
        let r = Environment { frames: vec![root], locals };
        proof {
            assert(r@.frames[0].values =~= globals_view());
            assert forall|i: int, j: int|
                0 <= i < r@.frames.len() && 0 <= j < r@.frames[i].values.len()
                implies lit_wf((#[trigger] r@.frames[i].values[j]).1, r@.frames.len() as int) by {
                assert(r@.frames[i] == r@.frames[0]);
                assert(r@.frames[0].values == globals_view());
                lemma_globals_wf(1);
            }
        }
        r
    }

    /// Records a hop distance for a reference index, growing the map as
    /// needed.
    pub fn resolve(&mut self, index: usize, distance: usize)
        ensures
            final(self)@.frames == old(self)@.frames,
            final(self)@.locals.len() >= old(self)@.locals.len(),
            final(self)@.locals.len() > index,
            depth_of(final(self)@, index as int) == Some(distance as int),
            forall|j: int| 0 <= j < final(self)@.locals.len() && j != index
                ==> depth_of(final(self)@, j) == depth_of(old(self)@, j),
    {
        while self.locals.len() <= index
            invariant
                self.frames@ == old(self).frames@,
                self.locals@.len() >= old(self).locals@.len(),
                forall|j: int| 0 <= j < old(self).locals@.len()
                    ==> self.locals@[j] == old(self).locals@[j],
                forall|j: int| old(self).locals@.len() <= j < self.locals@.len()
                    ==> self.locals@[j] is None,
            decreases index + 1 - self.locals.len(),
        {
            self.locals.push(None);
        }
        self.locals[index] = Some(distance);
    }

    /// Opens a new frame enclosed by `parent` and yields its index.
    pub fn enclose(&mut self, parent: usize) -> (idx: usize)
        requires
            parent < old(self)@.frames.len(),
        ensures
            idx == old(self)@.frames.len(),
            final(self)@.frames == old(self)@.frames.push(
                FrameV { values: Seq::empty(), enclosing: Some(parent as int) },
            ),
            final(self)@.locals == old(self)@.locals,
            env_wf(old(self)@) ==> env_wf(final(self)@),
    {
        let idx = self.frames.len();
        self.frames.push(Frame { values: Vec::new(), enclosing: Some(parent) });
        proof {
            assert(self@.frames.last().values =~= Seq::<(Seq<char>, LitV)>::empty());
            assert(self@.frames =~= old(self)@.frames.push(
                FrameV { values: Seq::empty(), enclosing: Some(parent as int) },
            ));
            if env_wf(old(self)@) {
                lemma_env_grow_wf(old(self)@, self@);
            }
        }
        idx
    }

    /// Binds `name` to `value` in frame `f`.
    pub fn define(&mut self, f: usize, name: String, value: Literal)
        requires
            f < old(self)@.frames.len(),
        ensures
            final(self)@ == env_bind(old(self)@, f as int, name@, value@),
            final(self)@.frames.len() == old(self)@.frames.len(),
            env_wf(old(self)@) && lit_wf(value@, old(self)@.frames.len() as int)
                ==> env_wf(final(self)@),
    {
        let ghost eold = self@;
        let ghost vv = value@;
        let frame = &mut self.frames[f];
        frame.values.push((name, value));
        proof {
            lemma_entries_view_len(self.frames@[f as int].values@);
            assert(self@.frames[f as int].values
                =~= eold.frames[f as int].values.push((name@, vv)));
            assert(self@.frames =~= env_bind(eold, f as int, name@, vv).frames);
            assert(self@.locals =~= eold.locals);
            assert(self@ == env_bind(eold, f as int, name@, vv));
            if env_wf(eold) && lit_wf(vv, eold.frames.len() as int) {
                lemma_env_bind_wf(eold, f as int, name@, vv);
            }
        }
    }

    /// Reads a variable: through its recorded depth if one exists, else from
    /// the root frame.
    pub fn get(&self, from: usize, name: &String, index: usize) -> (r: Result<
        Literal,
        RuntimeError,
    >)
        requires
            env_shape_wf(self@),
            from < self@.frames.len(),
        ensures
            match r {
                Ok(v) => env_get(self@, from as int, name@, index as int) == Ok::<LitV, RunErrV>(
                    v@,
                ),
                Err(e) => env_get(self@, from as int, name@, index as int) == Err::<LitV, RunErrV>(
                    e@,
                ),
            },
            env_wf(self@) && r is Ok ==> lit_wf(r->Ok_0@, self@.frames.len() as int),
    {
        let distance: Option<usize> = if index < self.locals.len() {
            self.locals[index]
        } else {
            None
        };
        proof {
            assert(depth_of(self@, index as int) == match distance {
                Some(d) => Some(d as int),
                None => None,
            });
        }
        self.get_at_distance(from, name, distance)
    }

    /// Reads a variable from the frame `distance` hops out, or from the root
    /// frame when no distance is recorded.
    fn get_at_distance(&self, from: usize, name: &String, distance: Option<usize>) -> (r: Result<
        Literal,
        RuntimeError,
    >)
        requires
            env_shape_wf(self@),
            from < self@.frames.len(),
        ensures
            match distance {
                Some(d) => match r {
                    Ok(v) => match frame_at(self@, from as int, d as int) {
                        Some(f) => assoc(self@.frames[f].values, name@) == Some(v@),
                        None => false,
                    },
                    Err(e) => match frame_at(self@, from as int, d as int) {
                        Some(f) => assoc(self@.frames[f].values, name@) is None
                            && e@ == (RunErrV::UndefinedVariable { name: name@ }),
                        None => e@ == RunErrV::Internal,
                    },
                },
                None => match r {
                    Ok(v) => assoc(self@.frames[root_of(self@, from as int)].values, name@)
                        == Some(v@),
                    Err(e) => assoc(self@.frames[root_of(self@, from as int)].values, name@)
                        is None && e@ == (RunErrV::UndefinedVariable { name: name@ }),
                },
            },
            env_wf(self@) && r is Ok ==> lit_wf(r->Ok_0@, self@.frames.len() as int),
        decreases
            match distance {
                Some(d) => d as int + 1,
                None => 0,
            },
            from,
    {
        proof {
            lemma_frames_view(self.frames@);
        }
        match distance {
            Some(d) => {
                if d == 0 {
                    let r = frame_lookup(&self.frames[from].values, name);
                    proof {
                        if env_wf(self@) && r is Some {
                            lemma_env_frame_entries_wf(self@, from as int);
                            lemma_assoc_wf(
                                self@.frames[from as int].values,
                                name@,
                                self@.frames.len() as int,
                            );
                        }
                    }
                    match r {
                        Some(v) => Ok(v),
                        None => Err(RuntimeError::UndefinedVariable { name: name.clone() }),
                    }
                } else {
                    match self.frames[from].enclosing {
                        Some(p) => self.get_at_distance(p, name, Some(d - 1)),
                        None => Err(RuntimeError::Internal),
                    }
                }
            },
            None => {
                match self.frames[from].enclosing {
                    Some(p) => self.get_at_distance(p, name, None),
                    None => {
                        let r = frame_lookup(&self.frames[from].values, name);
                        proof {
                            if env_wf(self@) && r is Some {
                                lemma_env_frame_entries_wf(self@, from as int);
                                lemma_assoc_wf(
                                    self@.frames[from as int].values,
                                    name@,
                                    self@.frames.len() as int,
                                );
                            }
                        }
                        match r {
                            Some(v) => Ok(v),
                            None => Err(RuntimeError::UndefinedVariable { name: name.clone() }),
                        }
                    },
                }
            },
        }
    }

    /// Writes a variable: into the frame at its recorded depth if one
    /// exists, else into the root frame, where the name must already be
    /// bound.
    pub fn assign(&mut self, from: usize, name: &String, value: Literal, index: usize) -> (r:
        Result<(), RuntimeError>)
        requires
            env_shape_wf(old(self)@),
            from < old(self)@.frames.len(),
        ensures
            match r {
                Ok(()) => env_assign(old(self)@, from as int, name@, value@, index as int)
                    == Ok::<EnvV, RunErrV>(final(self)@),
                Err(e) => env_assign(old(self)@, from as int, name@, value@, index as int)
                    == Err::<EnvV, RunErrV>(e@) && final(self)@ == old(self)@,
            },
            final(self)@.frames.len() == old(self)@.frames.len(),
            final(self)@.locals == old(self)@.locals,
            forall|i: int| 0 <= i < old(self)@.frames.len()
                ==> (#[trigger] final(self)@.frames[i]).enclosing
                    == old(self)@.frames[i].enclosing,
            env_wf(old(self)@) && lit_wf(value@, old(self)@.frames.len() as int)
                ==> env_wf(final(self)@),
    {
        let distance: Option<usize> = if index < self.locals.len() {
            self.locals[index]
        } else {
            None
        };
        proof {
            assert(depth_of(self@, index as int) == match distance {
                Some(d) => Some(d as int),
                None => None,
            });
        }
        self.assign_at_distance(from, name, value, distance)
    }

    /// Writes a variable into the frame `distance` hops out, or into the
    /// root frame when no distance is recorded.
    fn assign_at_distance(
        &mut self,
        from: usize,
        name: &String,
        value: Literal,
        distance: Option<usize>,
    ) -> (r: Result<(), RuntimeError>)
        requires
            env_shape_wf(old(self)@),
            from < old(self)@.frames.len(),
        ensures
            match distance {
                Some(d) => match frame_at(old(self)@, from as int, d as int) {
                    Some(f) => r is Ok && final(self)@ == env_bind(old(self)@, f, name@, value@),
                    None => r == Err::<(), RuntimeError>(RuntimeError::Internal)
                        && final(self)@ == old(self)@,
                },
                None => {
                    let root = root_of(old(self)@, from as int);
                    if assoc(old(self)@.frames[root].values, name@) is Some {
                        r is Ok && final(self)@ == env_bind(old(self)@, root, name@, value@)
                    } else {
                        final(self)@ == old(self)@ && match r {
                            Ok(_) => false,
                            Err(e) => e@ == (RunErrV::UndefinedVariable { name: name@ }),
                        }
                    }
                },
            },
            final(self)@.frames.len() == old(self)@.frames.len(),
            final(self)@.locals == old(self)@.locals,
            forall|i: int| 0 <= i < old(self)@.frames.len()
                ==> (#[trigger] final(self)@.frames[i]).enclosing
                    == old(self)@.frames[i].enclosing,
            env_wf(old(self)@) && lit_wf(value@, old(self)@.frames.len() as int)
                ==> env_wf(final(self)@),
        decreases
            match distance {
                Some(d) => d as int + 1,
                None => 0,
            },
            from,
    {
        proof {
            lemma_frames_view(self.frames@);
        }
        match distance {
            Some(d) => {
                if d == 0 {
                    self.bind_in(from, name, value);
                    Ok(())
                } else {
                    match self.frames[from].enclosing {
                        Some(p) => self.assign_at_distance(p, name, value, Some(d - 1)),
                        None => Err(RuntimeError::Internal),
                    }
                }
            },
            None => {
                match self.frames[from].enclosing {
                    Some(p) => self.assign_at_distance(p, name, value, None),
                    None => {
                        let present = {
                            let found = frame_lookup(&self.frames[from].values, name);
                            match found {
                                Some(_) => true,
                                None => false,
                            }
                        };
                        if present {
                            self.bind_in(from, name, value);
                            Ok(())
                        } else {
                            Err(RuntimeError::UndefinedVariable { name: name.clone() })
                        }
                    },
                }
            },
        }
    }

    /// Appends a binding to frame `f`.
    fn bind_in(&mut self, f: usize, name: &String, value: Literal)
        requires
            f < old(self)@.frames.len(),
        ensures
            final(self)@ == env_bind(old(self)@, f as int, name@, value@),
            final(self)@.frames.len() == old(self)@.frames.len(),
            final(self)@.locals == old(self)@.locals,
            forall|i: int| 0 <= i < old(self)@.frames.len()
                ==> (#[trigger] final(self)@.frames[i]).enclosing
                    == old(self)@.frames[i].enclosing,
            env_wf(old(self)@) && lit_wf(value@, old(self)@.frames.len() as int)
                ==> env_wf(final(self)@),
    {
        let ghost eold = self@;
        let ghost vv = value@;
        let frame = &mut self.frames[f];
        frame.values.push((name.clone(), value));
        proof {
            lemma_entries_view_len(self.frames@[f as int].values@);
            assert(self@.frames[f as int].values
                =~= eold.frames[f as int].values.push((name@, vv)));
            assert(self@.frames =~= env_bind(eold, f as int, name@, vv).frames);
            assert(self@.locals =~= eold.locals);
            assert(self@ == env_bind(eold, f as int, name@, vv));
            if env_wf(eold) && lit_wf(vv, eold.frames.len() as int) {
                lemma_env_bind_wf(eold, f as int, name@, vv);
            }
        }
    }
}

/// `frames_view` maps the arena element by element.
pub proof fn lemma_frames_view(s: Seq<Frame>)
    ensures
        frames_view(s).len() == s.len(),
        forall|i: int| 0 <= i < s.len() ==> frames_view(s)[i] == (#[trigger] s[i])@,
{
}

/// The bindings of one frame of a well-formed environment are well formed.
proof fn lemma_env_frame_entries_wf(e: EnvV, f: int)
    requires
        env_wf(e),
        0 <= f < e.frames.len(),
    ensures
        forall|j: int| 0 <= j < e.frames[f].values.len()
            ==> lit_wf((#[trigger] e.frames[f].values[j]).1, e.frames.len() as int),
{
}

/// Adding one binding of a well-formed value keeps the environment well
/// formed.
proof fn lemma_env_bind_wf(e: EnvV, f: int, name: Seq<char>, v: LitV)
    requires
        env_wf(e),
        0 <= f < e.frames.len(),
        lit_wf(v, e.frames.len() as int),
    ensures
        env_wf(env_bind(e, f, name, v)),
{
    let e2 = env_bind(e, f, name, v);
    assert(e2.frames.len() == e.frames.len());
    assert forall|i: int, j: int|
        0 <= i < e2.frames.len() && 0 <= j < e2.frames[i].values.len()
        implies lit_wf((#[trigger] e2.frames[i].values[j]).1, e2.frames.len() as int) by {
        if i == f {
            if j < e.frames[f].values.len() {
                assert(e2.frames[i].values[j] == e.frames[i].values[j]);
            } else {
                assert(e2.frames[i].values[j] == (name, v));
            }
        } else {
            assert(e2.frames[i] == e.frames[i]);
        }
    }
}

/// Appending a fresh frame whose enclosing link points into the old arena
/// keeps the environment well formed.
proof fn lemma_env_grow_wf(e: EnvV, e2: EnvV)
    requires
        env_wf(e),
        e2.frames.len() == e.frames.len() + 1,
        forall|i: int| 0 <= i < e.frames.len() ==> e2.frames[i] == e.frames[i],
        e2.frames.last().values.len() == 0,
        match e2.frames.last().enclosing {
            Some(p) => 0 <= p < e.frames.len(),
            None => false,
        },
    ensures
        env_wf(e2),
{
    assert forall|i: int, j: int|
        0 <= i < e2.frames.len() && 0 <= j < e2.frames[i].values.len()
        implies lit_wf((#[trigger] e2.frames[i].values[j]).1, e2.frames.len() as int) by {
        if i < e.frames.len() {
            assert(e2.frames[i] == e.frames[i]);
            assert(lit_wf(e.frames[i].values[j].1, e.frames.len() as int));
            crate::expr::lemma_lit_wf_mono(
                e.frames[i].values[j].1,
                e.frames.len() as int,
                e2.frames.len() as int,
            );
        }
    }
}

} // verus!
