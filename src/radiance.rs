//! The radiance integrator's walk along one camera ray.
//!
//! The color seen along a ray is found by a random walk: the ray is traced
//! into the scene; if it misses, the walk ends on the sky; if the material it
//! hits absorbs it, the walk ends black; if the material scatters it, the
//! scattered ray is traced next with one unit less of depth, and its color is
//! multiplied by the material's attenuation. A walk whose depth is used up ends
//! black. The tracing and the color arithmetic are the caller's; this module
//! decides, from the depth budget and the interactions met so far, whether the
//! walk goes on and how it ends.
use vstd::prelude::*;

verus! {

/// How the scene and its materials met one traced ray.
#[derive(Clone, Copy, Debug, PartialEq, Eq, Structural)]
pub enum Interaction {
    /// The ray hit nothing.
    Miss,
    /// The ray hit a surface whose material absorbed it.
    Absorbed,
    /// The ray hit a surface whose material scattered it.
    Scattered,
}

/// The color a finished walk ends on, before the attenuations collected at
/// each scattering are applied.
#[derive(Clone, Copy, Debug, PartialEq, Eq, Structural)]
pub enum Terminal {
    /// No light: the depth budget ran out or the ray was absorbed.
    Black,
    /// The sky gradient, taken in the direction of the last ray.
    Sky,
}

/// How a walk given `depth` units of depth ends, when `history[i]` is how the
/// scene met the `i`-th ray traced (the camera ray first, then each scattered
/// ray): the terminal color and the number of scatterings whose attenuations
/// multiply it. `None` while the walk still needs the next ray traced.
pub open spec fn walk_outcome(depth: nat, history: Seq<Interaction>) -> Option<(Terminal, nat)>
    decreases depth,
{
    if depth == 0 {
        Some((Terminal::Black, 0))
    } else if history.len() == 0 {
        None
    } else {
        match history[0] {
            Interaction::Miss => Some((Terminal::Sky, 0)),
            Interaction::Absorbed => Some((Terminal::Black, 0)),
            Interaction::Scattered => match walk_outcome((depth - 1) as nat, history.drop_first()) {
                Some((t, n)) => Some((t, n + 1)),
                None => None,
            },
        }
    }
}

/// `o` with `k` more scatterings.
pub open spec fn after_scatterings(o: Option<(Terminal, nat)>, k: nat) -> Option<(Terminal, nat)> {
    match o {
        Some((t, n)) => Some((t, n + k)),
        None => None,
    }
}

/// While a walk goes on, every ray so far was scattered, fewer rays were traced
/// than the depth allows, and what follows is a walk with the depth left.
proof fn lemma_pending_walk(depth: nat, history: Seq<Interaction>, more: Seq<Interaction>)
    requires
        walk_outcome(depth, history) is None,
    ensures
        history.len() < depth,
        forall|i: int| 0 <= i < history.len() ==> history[i] == Interaction::Scattered,
        walk_outcome(depth, history + more) == after_scatterings(
            walk_outcome((depth - history.len()) as nat, more),
            history.len(),
        ),
    decreases history.len(),
{
    if history.len() == 0 {
        assert(history + more =~= more);
    } else {
        let rest = history.drop_first();
        lemma_pending_walk((depth - 1) as nat, rest, more);
        assert((history + more).drop_first() =~= rest + more);
        assert forall|i: int| 0 <= i < history.len() implies history[i]
            == Interaction::Scattered by {
            if i > 0 {
                assert(history[i] == rest[i - 1]);
            }
        }
    }
}

/// A walk given `depth` units of depth ends on `t` after `n` scatterings: the
/// first `n` rays were scattered, and then either the depth ran out (black),
/// or the next ray missed (sky), or the next ray was absorbed (black).
pub open spec fn ends_as(depth: nat, history: Seq<Interaction>, t: Terminal, n: nat) -> bool {
    &&& n <= depth
    &&& n <= history.len()
    &&& forall|i: int| 0 <= i < n ==> history[i] == Interaction::Scattered
    &&& if n == depth {
        t == Terminal::Black
    } else {
        &&& n < history.len()
        &&& (history[n as int] == Interaction::Miss && t == Terminal::Sky) || (history[n as int]
            == Interaction::Absorbed && t == Terminal::Black)
    }
}

/// A walk whose depth is used up ends black, whatever the ray and the scene.
pub proof fn lemma_no_depth_is_black(history: Seq<Interaction>)
    ensures
        walk_outcome(0, history) == Some((Terminal::Black, 0nat)),
{
}

/// How a walk ends, stated without recursion: it ends on `t` after `n`
/// scatterings exactly when `ends_as` says so.
pub proof fn lemma_walk_outcome_exact(depth: nat, history: Seq<Interaction>, t: Terminal, n: nat)
    ensures
        walk_outcome(depth, history) == Some((t, n)) <==> ends_as(depth, history, t, n),
    decreases depth,
{
    if depth > 0 && history.len() > 0 {
        let rest = history.drop_first();
        if n > 0 {
            lemma_walk_outcome_exact((depth - 1) as nat, rest, t, (n - 1) as nat);
            if ends_as(depth, history, t, n) {
                assert forall|i: int| 0 <= i < n - 1 implies rest[i]
                    == Interaction::Scattered by {
                    assert(rest[i] == history[i + 1]);
                }
                assert(ends_as((depth - 1) as nat, rest, t, (n - 1) as nat));
            }
            if history[0] == Interaction::Scattered && ends_as(
                (depth - 1) as nat,
                rest,
                t,
                (n - 1) as nat,
            ) {
                assert forall|i: int| 0 <= i < n implies history[i] == Interaction::Scattered by {
                    if i > 0 {
                        assert(history[i] == rest[i - 1]);
                    }
                }
                assert(history[n as int] == rest[n - 1] || n == depth);
            }
        }
    }
}

/// A walk traces at most as many rays as its depth: once that many rays were
/// traced it has ended, after at most that many scatterings.
pub proof fn lemma_walk_is_bounded(depth: nat, history: Seq<Interaction>)
    ensures
        history.len() >= depth ==> walk_outcome(depth, history) is Some,
        walk_outcome(depth, history) matches Some((_, n)) ==> n <= depth && n <= history.len(),
    decreases depth,
{
    if depth > 0 && history.len() > 0 {
        lemma_walk_is_bounded((depth - 1) as nat, history.drop_first());
    }
}

/// The state of one walk: the depth it was given, the interactions met so far
/// and, once it has ended, how.
pub struct PathWalk {
    remaining: u32,
    bounces: u32,
    ended: Option<Terminal>,
    depth: Ghost<nat>,
    history: Ghost<Seq<Interaction>>,
}

impl PathWalk {
    /// The depth the walk was given.
    pub closed spec fn depth(&self) -> nat {
        self.depth@
    }

    /// How the scene met each ray traced so far, in order.
    pub closed spec fn history(&self) -> Seq<Interaction> {
        self.history@
    }

    /// How the walk ends, as far as it is known.
    pub open spec fn outcome(&self) -> Option<(Terminal, nat)> {
        walk_outcome(self.depth(), self.history())
    }

    /// The counters agree with the outcome of the history: once the walk has
    /// ended they hold how; until then, one bounce and one unit of depth less
    /// for each ray traced.
    pub closed spec fn wf(&self) -> bool {
        &&& self.depth@ <= u32::MAX
        &&& match walk_outcome(self.depth@, self.history@) {
            Some((t, n)) => self.ended == Some(t) && self.bounces == n,
            None => {
                &&& self.ended is None
                &&& self.bounces == self.history@.len()
                &&& self.remaining == self.depth@ - self.history@.len()
            },
        }
    }

    /// A walk with `depth` units of depth that has traced no ray yet.
    pub fn new(depth: u32) -> (w: PathWalk)
        ensures
            w.wf(),
            w.depth() == depth,
            w.history() == Seq::<Interaction>::empty(),
    {
        PathWalk {
            remaining: depth,
            bounces: 0,
            ended: if depth == 0 {
                Some(Terminal::Black)
            } else {
                None
            },
            depth: Ghost(depth as nat),
            history: Ghost(Seq::empty()),
        }
    }

    /// How the walk ended, or `None` while the next ray is still to be traced.
    pub fn ended(&self) -> (r: Option<Terminal>)
        requires
            self.wf(),
        ensures
            r is None <==> self.outcome() is None,
            r matches Some(t) ==> self.outcome().unwrap().0 == t,
    {
        self.ended
    }

    /// How many rays were scattered so far: the number of attenuations that
    /// multiply the color the walk ends on.
    pub fn bounces(&self) -> (n: u32)
        requires
            self.wf(),
        ensures
            self.outcome() matches Some((_, k)) ==> n == k,
            self.outcome() is None ==> n == self.history().len(),
    {
        self.bounces
    }

    /// Takes note of how the scene met the ray just traced.
    pub fn record(&mut self, event: Interaction)
        requires
            old(self).wf(),
            old(self).outcome() is None,
        ensures
            final(self).wf(),
            final(self).depth() == old(self).depth(),
            final(self).history() == old(self).history().push(event),
    {
        let ghost depth = self.depth@;
        let ghost history = self.history@;
        proof {
            // What follows the pending history is a walk of one interaction
            // with the depth left.
            lemma_pending_walk(depth, history, seq![event]);
            assert(history + seq![event] =~= history.push(event));
            let left = (depth - history.len()) as nat;
            assert(seq![event].drop_first() =~= Seq::<Interaction>::empty());
            assert(walk_outcome((left - 1) as nat, Seq::<Interaction>::empty()) == if left == 1 {
                Some((Terminal::Black, 0nat))
            } else {
                None
            });
        }
        self.history = Ghost(history.push(event));
        match event {
            Interaction::Miss => {
                self.ended = Some(Terminal::Sky);
            },
            Interaction::Absorbed => {
                self.ended = Some(Terminal::Black);
            },
            Interaction::Scattered => {
                self.remaining = self.remaining - 1;
                self.bounces = self.bounces + 1;
                if self.remaining == 0 {
                    self.ended = Some(Terminal::Black);
                }
            },
        }
    }
}

} // verus!
