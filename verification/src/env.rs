//! The environment: scope frames that map names to values.
//!
//! Every frame but the global one has a parent, the frame that was
//! current when it was made. The frames from the current one up to the
//! global one are the scopes in effect; a name is looked up in them from
//! the innermost outwards. A frame stays when its block is left, so that
//! a function declared in it still finds it.

use vstd::prelude::*;
use crate::err::{error_at, LoxError};
use crate::scanner::Token;
use crate::value::{Value, ValueView};

verus! {

/// One scope: its variables and the scope around it.
pub struct FrameView {
    pub parent: Option<int>,
    pub vars: Map<Seq<char>, ValueView>,
}

/// The frames made so far and the index of the current one.
pub struct EnvView {
    pub frames: Seq<FrameView>,
    pub current: int,
}

/// The current frame exists, and every parent was made before its child.
pub open spec fn env_wf(e: EnvView) -> bool {
    &&& 0 <= e.current < e.frames.len()
    &&& forall|i: int|
        0 <= i < e.frames.len() ==> (#[trigger] e.frames[i].parent matches Some(p) ==> 0 <= p < i)
}

/// The environment of a fresh interpreter: the global frame alone.
pub open spec fn initial() -> EnvView {
    EnvView { frames: seq![FrameView { parent: None, vars: Map::empty() }], current: 0 }
}

/// The nearest frame, from `frame` outwards, that holds `name`.
pub open spec fn holder(e: EnvView, frame: int, name: Seq<char>) -> Option<int>
    decreases frame,
{
    if !(0 <= frame < e.frames.len()) {
        None
    } else if e.frames[frame].vars.contains_key(name) {
        Some(frame)
    } else {
        match e.frames[frame].parent {
            Some(p) => if 0 <= p < frame {
                holder(e, p, name)
            } else {
                None
            },
            None => None,
        }
    }
}

/// The value of `name`: that in the nearest scope that holds it.
pub open spec fn lookup(e: EnvView, name: Seq<char>) -> Option<ValueView> {
    match holder(e, e.current, name) {
        Some(f) => Some(e.frames[f].vars[name]),
        None => None,
    }
}

/// `e` with `name` bound to `v` in frame `frame`.
pub open spec fn bound(e: EnvView, frame: int, name: Seq<char>, v: ValueView) -> EnvView {
    EnvView {
        frames: e.frames.update(
            frame,
            FrameView {
                parent: e.frames[frame].parent,
                vars: e.frames[frame].vars.insert(name, v),
            },
        ),
        current: e.current,
    }
}

/// `e` after `name` was defined as `v`: it is bound in the current
/// scope, whatever the scopes around it hold.
pub open spec fn defined(e: EnvView, name: Seq<char>, v: ValueView) -> EnvView {
    bound(e, e.current, name, v)
}

/// `e` after `v` was assigned to `name`: the nearest scope that holds
/// the name is changed. Nothing where no scope holds it.
pub open spec fn assigned(e: EnvView, name: Seq<char>, v: ValueView) -> Option<EnvView> {
    match holder(e, e.current, name) {
        Some(f) => Some(bound(e, f, name, v)),
        None => None,
    }
}

/// `e` with a new, empty scope inside the frame `parent`, made current.
pub open spec fn pushed_under(e: EnvView, parent: int) -> EnvView {
    EnvView {
        frames: e.frames.push(FrameView { parent: Some(parent), vars: Map::empty() }),
        current: e.frames.len() as int,
    }
}

/// `e` with a new, empty scope inside the current one.
pub open spec fn pushed(e: EnvView) -> EnvView {
    pushed_under(e, e.current)
}

/// `e` with the frame `frame` made current.
pub open spec fn moved_to(e: EnvView, frame: int) -> EnvView {
    EnvView { frames: e.frames, current: frame }
}

/// `e` with the scope around the current one made current. The global
/// scope is never left.
pub open spec fn popped(e: EnvView) -> EnvView {
    match e.frames[e.current].parent {
        Some(p) => moved_to(e, p),
        None => e,
    }
}

/// How many scopes are in effect at `frame`: the frame and those around
/// it.
pub open spec fn scopes(e: EnvView, frame: int) -> nat
    decreases frame,
{
    if !(0 <= frame < e.frames.len()) {
        0
    } else {
        match e.frames[frame].parent {
            Some(p) => if 0 <= p < frame {
                1 + scopes(e, p)
            } else {
                1
            },
            None => 1,
        }
    }
}

/// One scope frame.
pub struct Frame {
    parent: Option<usize>,
    names: Vec<String>,
    values: Vec<Value>,
}

impl Frame {
    /// Each name has its value, and no name stands twice.
    spec fn wf(&self) -> bool {
        &&& self.names.len() == self.values.len()
        &&& forall|i: int, j: int|
            0 <= i < j < self.names.len() ==> self.names@[i]@ != self.names@[j]@
    }

    /// Whether `name` stands at `i`.
    spec fn at(&self, name: Seq<char>, i: int) -> bool {
        0 <= i < self.names.len() && self.names@[i]@ == name
    }

    /// The variables of the frame.
    spec fn vars(&self) -> Map<Seq<char>, ValueView> {
        Map::new(
            |k: Seq<char>| exists|i: int| self.at(k, i),
            |k: Seq<char>| self.values@[choose|i: int| self.at(k, i)]@,
        )
    }

    spec fn view(&self) -> FrameView {
        FrameView {
            parent: match self.parent {
                Some(p) => Some(p as int),
                None => None,
            },
            vars: self.vars(),
        }
    }

    /// Where `name` stands, if the frame holds it.
    fn find(&self, name: &String) -> (r: Option<usize>)
        requires
            self.wf(),
        ensures
            r is Some <==> self.vars().contains_key(name@),
            r matches Some(i) ==> i < self.names.len() && self.names@[i as int]@ == name@
                && self.vars()[name@] == self.values@[i as int]@,
    {
        let mut i: usize = 0;
        while i < self.names.len()
            invariant
                i <= self.names.len(),
                self.wf(),
                forall|k: int| 0 <= k < i ==> self.names@[k]@ != name@,
            decreases self.names.len() - i,
        {
            if self.names[i] == *name {
                proof {
                    assert(self.at(name@, i as int));
                    let c = choose|c: int| self.at(name@, c);
                    assert(c == i);
                }
                return Some(i);
            }
            i += 1;
        }
        proof {
            assert(forall|k: int| !self.at(name@, k));
        }
        None
    }

    /// Binds `name` to `val`, in place of what it was bound to.
    fn insert(&mut self, name: String, val: Value)
        requires
            old(self).wf(),
        ensures
            final(self).wf(),
            final(self).parent == old(self).parent,
            final(self).vars() == old(self).vars().insert(name@, val@),
    {
        match self.find(&name) {
            Some(i) => {
                self.values[i] = val;
                proof {
                    assert(self.wf());
                    assert forall|k: Seq<char>, c: int| final(self).at(k, c) == old(self).at(
                        k,
                        c,
                    ) by {}
                    assert(final(self).vars().dom() =~= old(self).vars().insert(
                        name@,
                        val@,
                    ).dom()) by {
                        assert(old(self).at(name@, i as int));
                    }
                    assert forall|k: Seq<char>|
                        final(self).vars().contains_key(k) implies #[trigger] final(self).vars()[k]
                        == old(self).vars().insert(name@, val@)[k] by {
                        let c = choose|c: int| final(self).at(k, c);
                        let d = choose|d: int| old(self).at(k, d);
                        assert(final(self).at(k, c));
                        assert(old(self).at(k, c));
                        assert(old(self).at(k, d));
                        assert(c == d);
                        if k == name@ {
                            assert(old(self).at(name@, i as int));
                            assert(c == i);
                        }
                    }
                    assert(final(self).vars() =~= old(self).vars().insert(name@, val@));
                }
            },
            None => {
                self.names.push(name);
                self.values.push(val);
                proof {
                    let n = old(self).names.len() as int;
                    assert forall|i: int, j: int| 0 <= i < j < self.names.len() implies self.names@[i]@
                        != self.names@[j]@ by {
                        if j == n {
                            assert(!old(self).at(name@, i));
                        }
                    }
                    assert(self.wf());
                    assert(final(self).at(name@, n));
                    assert forall|k: Seq<char>, c: int| final(self).at(k, c) == (old(self).at(
                        k,
                        c,
                    ) || (c == n && k == name@)) by {}
                    assert(forall|c: int| !old(self).at(name@, c));
                    assert(final(self).vars().dom() =~= old(self).vars().insert(
                        name@,
                        val@,
                    ).dom());
                    assert forall|k: Seq<char>|
                        final(self).vars().contains_key(k) implies #[trigger] final(self).vars()[k]
                        == old(self).vars().insert(name@, val@)[k] by {
                        let c = choose|c: int| final(self).at(k, c);
                        assert(final(self).at(k, c));
                        if k == name@ {
                            assert(c == n);
                        } else {
                            let d = choose|d: int| old(self).at(k, d);
                            assert(old(self).at(k, c));
                            assert(old(self).at(k, d));
                            assert(c == d);
                        }
                    }
                    assert(final(self).vars() =~= old(self).vars().insert(name@, val@));
                }
            },
        }
    }
}

/// The scope frames of a running program.
pub struct Env {
    frames: Vec<Frame>,
    current: usize,
}

impl View for Env {
    type V = EnvView;

    closed spec fn view(&self) -> EnvView {
        EnvView {
            frames: Seq::new(self.frames@.len(), |i: int| self.frames@[i].view()),
            current: self.current as int,
        }
    }
}

impl Env {
    /// The frames are in order, and each holds a name at most once.
    pub closed spec fn wf(&self) -> bool {
        &&& env_wf(self@)
        &&& forall|i: int| 0 <= i < self.frames.len() ==> (#[trigger] self.frames@[i]).wf()
    }

    /// A well-formed environment has a well-formed view.
    pub proof fn lemma_wf(&self)
        requires
            self.wf(),
        ensures
            env_wf(self@),
    {
    }

    /// An environment with the global scope alone.
    pub fn new() -> (e: Self)
        ensures
            e.wf(),
            e@ == initial(),
    {
        let mut frames: Vec<Frame> = Vec::new();
        let global = Frame { parent: None, names: Vec::new(), values: Vec::new() };
        proof {
            assert(global.vars() =~= Map::empty());
        }
        frames.push(global);
        let e = Env { frames, current: 0 };
        proof {
            assert(e@.frames =~= initial().frames);
        }
        e
    }

    /// How many frames there are.
    pub fn frames(&self) -> (n: usize)
        ensures
            n == self@.frames.len(),
    {
        self.frames.len()
    }

    /// The index of the current frame.
    pub fn current(&self) -> (f: usize)
        ensures
            f == self@.current,
    {
        self.current
    }

    /// Enters a new, empty scope inside the current one.
    pub fn push_scope(&mut self)
        requires
            old(self).wf(),
        ensures
            final(self).wf(),
            final(self)@ == pushed(old(self)@),
    {
        let parent = self.current;
        self.enter(parent);
    }

    /// Enters a new, empty scope inside the frame `parent`.
    pub fn enter(&mut self, parent: usize)
        requires
            old(self).wf(),
            parent < old(self)@.frames.len(),
        ensures
            final(self).wf(),
            final(self)@ == pushed_under(old(self)@, parent as int),
    {
        let frame = Frame { parent: Some(parent), names: Vec::new(), values: Vec::new() };
        proof {
            assert(frame.vars() =~= Map::empty());
        }
        let index = self.frames.len();
        self.frames.push(frame);
        self.current = index;
        proof {
            assert(self@.frames =~= pushed_under(old(self)@, parent as int).frames);
        }
    }

    /// Leaves the current scope for the one around it. The global scope
    /// is not left.
    pub fn pop_scope(&mut self)
        requires
            old(self).wf(),
        ensures
            final(self).wf(),
            final(self)@ == popped(old(self)@),
    {
        match self.frames[self.current].parent {
            Some(p) => {
                proof {
                    assert(self@.frames[self.current as int].parent == Some(p as int));
                }
                self.current = p;
                proof {
                    assert(self@.frames =~= old(self)@.frames);
                }
            },
            None => {},
        }
    }

    /// Makes the frame `frame` current.
    pub fn restore(&mut self, frame: usize)
        requires
            old(self).wf(),
            frame < old(self)@.frames.len(),
        ensures
            final(self).wf(),
            final(self)@ == moved_to(old(self)@, frame as int),
    {
        self.current = frame;
        proof {
            assert(self@.frames =~= old(self)@.frames);
        }
    }

    /// Binds `name` to `val` in the current scope.
    pub fn define(&mut self, name: String, val: Value)
        requires
            old(self).wf(),
        ensures
            final(self).wf(),
            final(self)@ == defined(old(self)@, name@, val@),
    {
        let at = self.current;
        self.bind(at, name, val);
    }

    /// Binds `name` to `val` in the frame `at`.
    fn bind(&mut self, at: usize, name: String, val: Value)
        requires
            old(self).wf(),
            at < old(self).frames.len(),
        ensures
            final(self).wf(),
            final(self)@ == bound(old(self)@, at as int, name@, val@),
    {
        proof {
            assert(old(self).frames@[at as int].wf());
        }
        self.frames[at].insert(name, val);
        proof {
            assert(self.frames.len() == old(self).frames.len());
            assert(forall|i: int|
                0 <= i < self.frames.len() && i != at ==> self.frames@[i] == old(self).frames@[i]);
            assert(self@.frames =~= bound(old(self)@, at as int, name@, val@).frames);
            assert forall|i: int| 0 <= i < self.frames.len() implies (
            #[trigger] self.frames@[i]).wf() by {
                if i != at {
                    assert(old(self).frames@[i].wf());
                }
            }
            assert forall|i: int| 0 <= i < self@.frames.len() implies (
            #[trigger] self@.frames[i].parent matches Some(p) ==> 0 <= p < i) by {
                assert(self@.frames[i].parent == old(self)@.frames[i].parent);
            }
        }
    }

    /// The nearest frame, from the current one outwards, that holds
    /// `name`, and where in it the name stands.
    fn find(&self, name: &String) -> (r: Option<(usize, usize)>)
        requires
            self.wf(),
        ensures
            r matches Some((f, i)) ==> holder(self@, self@.current, name@) == Some(f as int) && f
                < self.frames.len() && i < self.frames@[f as int].values.len()
                && self@.frames[f as int].vars[name@] == self.frames@[f as int].values@[i as int]@,
            r is None ==> holder(self@, self@.current, name@) is None,
    {
        let mut frame: usize = self.current;
        loop
            invariant
                self.wf(),
                frame < self.frames.len(),
                holder(self@, self@.current, name@) == holder(self@, frame as int, name@),
            decreases frame,
        {
            proof {
                assert(self.frames@[frame as int].wf());
                assert(self@.frames[frame as int] == self.frames@[frame as int].view());
            }
            match self.frames[frame].find(name) {
                Some(i) => {
                    return Some((frame, i));
                },
                None => {},
            }
            match self.frames[frame].parent {
                Some(p) => {
                    frame = p;
                },
                None => {
                    return None;
                },
            }
        }
    }

    /// Assigns `val` to the variable that `name` names: the nearest
    /// scope that holds it is changed. Fails where no scope holds it.
    pub fn assign(&mut self, name: &Token, val: Value) -> (r: Result<(), LoxError>)
        requires
            old(self).wf(),
        ensures
            final(self).wf(),
            match assigned(old(self)@, name.lexeme@, val@) {
                Some(e) => r is Ok && final(self)@ == e,
                None => r matches Err(error) && final(self)@ == old(self)@ && error@ == error_at(
                    name.line,
                    name.lexeme@,
                    "Undefined variable"@,
                ),
            },
            final(self)@.current == old(self)@.current,
            final(self)@.frames.len() == old(self)@.frames.len(),
            forall|i: int|
                0 <= i < old(self)@.frames.len() ==> #[trigger] final(self)@.frames[i].parent == old(
                    self,
                )@.frames[i].parent,
    {
        match self.find(&name.lexeme) {
            Some((frame, _)) => {
                self.bind(frame, name.lexeme.clone(), val);
                Ok(())
            },
            None => Err(LoxError::at_token(name, "Undefined variable")),
        }
    }

    /// The value of the variable that `name` names, if a scope holds it.
    pub fn get(&self, name: &Token) -> (r: Option<Value>)
        requires
            self.wf(),
        ensures
            match r {
                Some(v) => lookup(self@, name.lexeme@) == Some(v@),
                None => lookup(self@, name.lexeme@) is None,
            },
    {
        match self.find(&name.lexeme) {
            Some((frame, i)) => Some(self.frames[frame].values[i].clone()),
            None => None,
        }
    }
}

/// Entering a scope adds one to the scopes in effect, and leaving it
/// again gives back the environment's current frame.
pub proof fn lemma_push_then_pop(e: EnvView)
    requires
        env_wf(e),
    ensures
        env_wf(pushed(e)),
        scopes(pushed(e), pushed(e).current) == scopes(e, e.current) + 1,
        popped(pushed(e)).current == e.current,
        scopes(popped(pushed(e)), popped(pushed(e)).current) == scopes(e, e.current),
{
    lemma_scopes_grow(e, pushed(e), e.current);
    lemma_scopes_grow(e, popped(pushed(e)), e.current);
}

/// The scopes in effect at a frame do not change when frames are added
/// or variables bound.
pub proof fn lemma_scopes_grow(e: EnvView, later: EnvView, frame: int)
    requires
        env_wf(e),
        0 <= frame < e.frames.len(),
        e.frames.len() <= later.frames.len(),
        forall|i: int| 0 <= i < e.frames.len() ==> later.frames[i].parent == e.frames[i].parent,
    ensures
        scopes(later, frame) == scopes(e, frame),
    decreases frame,
{
    match e.frames[frame].parent {
        Some(p) => {
            lemma_scopes_grow(e, later, p);
        },
        None => {},
    }
}

/// The nearest holder of a name is a frame of the environment, at or
/// outside the frame where the search starts.
pub proof fn lemma_holder_bounds(e: EnvView, frame: int, name: Seq<char>)
    ensures
        holder(e, frame, name) matches Some(f) ==> 0 <= f <= frame && f < e.frames.len()
            && e.frames[f].vars.contains_key(name),
    decreases frame,
{
    if 0 <= frame < e.frames.len() && !e.frames[frame].vars.contains_key(name) {
        match e.frames[frame].parent {
            Some(p) => {
                if 0 <= p < frame {
                    lemma_holder_bounds(e, p, name);
                }
            },
            None => {},
        }
    }
}

/// A name that was defined is found, with the value it was defined as.
pub proof fn lemma_define_then_get(e: EnvView, name: Seq<char>, v: ValueView)
    requires
        env_wf(e),
    ensures
        lookup(defined(e, name, v), name) == Some(v),
{
}

/// Shadowing: a name defined in an inner scope hides the outer one as
/// long as the scope lasts, and the outer one is as it was when the
/// scope is left.
pub proof fn lemma_shadowing(e: EnvView, name: Seq<char>, v: ValueView)
    requires
        env_wf(e),
    ensures
        lookup(defined(pushed(e), name, v), name) == Some(v),
        lookup(popped(defined(pushed(e), name, v)), name) == lookup(e, name),
{
    let inner = defined(pushed(e), name, v);
    let back = popped(inner);
    assert(back.current == e.current);
    lemma_lookup_grows(e, back, e.current, name);
    lemma_holder_bounds(e, e.current, name);
}

/// What a frame sees does not change when frames are added behind it or
/// variables bound in them.
pub proof fn lemma_lookup_grows(e: EnvView, later: EnvView, frame: int, name: Seq<char>)
    requires
        env_wf(e),
        0 <= frame < e.frames.len(),
        e.frames.len() <= later.frames.len(),
        forall|i: int| 0 <= i < e.frames.len() ==> later.frames[i] == e.frames[i],
    ensures
        holder(later, frame, name) == holder(e, frame, name),
    decreases frame,
{
    if !e.frames[frame].vars.contains_key(name) {
        match e.frames[frame].parent {
            Some(p) => {
                lemma_lookup_grows(e, later, p, name);
            },
            None => {},
        }
    }
}

/// Assignment changes the value that is found, and fails exactly where
/// nothing is found.
pub proof fn lemma_assign_then_get(e: EnvView, name: Seq<char>, v: ValueView)
    requires
        env_wf(e),
    ensures
        assigned(e, name, v) is Some <==> lookup(e, name) is Some,
        assigned(e, name, v) matches Some(after) ==> lookup(after, name) == Some(v),
{
    lemma_holder_bounds(e, e.current, name);
    match holder(e, e.current, name) {
        Some(f) => {
            lemma_holder_bound(e, bound(e, f, name, v), e.current, f, name);
        },
        None => {},
    }
}

/// Binding a name in the frame that holds it leaves it the holder.
proof fn lemma_holder_bound(e: EnvView, after: EnvView, frame: int, f: int, name: Seq<char>)
    requires
        env_wf(e),
        holder(e, frame, name) == Some(f),
        0 <= f < e.frames.len(),
        after.frames.len() == e.frames.len(),
        after.frames[f].vars.contains_key(name),
        after.frames[f].parent == e.frames[f].parent,
        forall|i: int| 0 <= i < e.frames.len() && i != f ==> after.frames[i] == e.frames[i],
    ensures
        holder(after, frame, name) == Some(f),
    decreases frame,
{
    if frame != f {
        match e.frames[frame].parent {
            Some(p) => {
                lemma_holder_bound(e, after, p, f, name);
            },
            None => {},
        }
    }
}

} // verus!
