//! The helper that draws missing edges for the player, a few at a time.

use vstd::prelude::*;
use crate::messages::ToggleEdge;
use crate::puzzle::Puzzle;

verus! {

/// The time between two rounds of the solver, in milliseconds.
pub const PERIOD_MS: u32 = 100;

/// The most edges that one round draws.
pub const EDGES_PER_ROUND: usize = 21;

/// The solver: whether it runs, and how long ago its last round was.
#[derive(Clone, Copy, Debug, PartialEq, Eq, Structural)]
pub struct Autosolver {
    pub elapsed_ms: u32,
    pub enabled: bool,
}

/// A solution edge that the player has not drawn.
pub open spec fn missing_fn(puzzle: &Puzzle) -> spec_fn((usize, usize)) -> bool {
    |e: (usize, usize)| !puzzle.game().contains(e)
}

/// The solution edges that the player has not drawn, in the order of the
/// solution, and of them no more than `limit`.
pub open spec fn missing_edges(puzzle: &Puzzle, limit: int) -> Seq<(usize, usize)> {
    let all = puzzle.solution_order().filter(missing_fn(puzzle));
    if all.len() <= limit {
        all
    } else {
        all.take(limit)
    }
}

/// The first solution edges that the player has not drawn, no more than
/// `limit` of them.
pub fn first_missing(puzzle: &Puzzle, limit: usize) -> (edges: Vec<(usize, usize)>)
    requires
        puzzle.wf(),
    ensures
        edges@ == missing_edges(puzzle, limit as int),
{
    let pairs = puzzle.solution_pairs();
    let drawn = puzzle.game_edge_set();
    let ghost missing = missing_fn(puzzle);
    let mut edges: Vec<(usize, usize)> = Vec::new();
    let mut i: usize = 0;
    proof {
        reveal(Seq::filter);
        assert(pairs@.take(0).filter(missing) =~= Seq::<(usize, usize)>::empty());
        puzzle.lemma_wf();
    }
    while i < pairs.len() && edges.len() < limit
        invariant
            0 <= i <= pairs@.len(),
            puzzle.wf(),
            pairs@ == puzzle.solution_order(),
            drawn@ == puzzle.game(),
            missing == missing_fn(puzzle),
            edges@ == pairs@.take(i as int).filter(missing),
            edges@.len() <= limit,
            forall|e: (usize, usize)| #[trigger] puzzle.solution().contains(e) ==> e.0 < e.1,
            pairs@.to_set() == puzzle.solution(),
        decreases pairs@.len() - i,
    {
        let e = pairs[i];
        proof {
            assert(pairs@.take(i + 1) =~= pairs@.take(i as int).push(e));
            Seq::lemma_filter_push(pairs@.take(i as int), e, missing);
            assert(pairs@.contains(pairs@[i as int]));
            assert(puzzle.solution().contains(e));
        }
        if !drawn.is_edge(e.0, e.1) {
            edges.push(e);
        }
        i += 1;
    }
    proof {
        let all = pairs@.filter(missing);
        if i == pairs@.len() {
            assert(pairs@.take(i as int) =~= pairs@);
        } else {
            assert(edges@.len() == limit);
            lemma_filter_prefix(pairs@, missing, i as int);
        }
    }
    edges
}

/// The filtered prefix of a sequence is a prefix of the filtered sequence.
proof fn lemma_filter_prefix<A>(s: Seq<A>, pred: spec_fn(A) -> bool, i: int)
    requires
        0 <= i <= s.len(),
    ensures
        s.take(i).filter(pred).len() <= s.filter(pred).len(),
        s.filter(pred).take(s.take(i).filter(pred).len() as int) == s.take(i).filter(pred),
    decreases s.len() - i,
{
    if i == s.len() {
        assert(s.take(i) =~= s);
        assert(s.filter(pred).take(s.filter(pred).len() as int) =~= s.filter(pred));
    } else {
        lemma_filter_prefix(s, pred, i + 1);
        assert(s.take(i + 1) =~= s.take(i).push(s[i]));
        Seq::lemma_filter_push(s.take(i), s[i], pred);
        let short = s.take(i).filter(pred);
        let long = s.take(i + 1).filter(pred);
        let all = s.filter(pred);
        assert(all.take(long.len() as int) == long);
        assert(all.take(short.len() as int) =~= short) by {
            assert forall|k: int| 0 <= k < short.len() implies all.take(short.len() as int)[k]
                == short[k] by {
                assert(all.take(long.len() as int)[k] == long[k]);
            }
        }
    }
}

/// What a round of the solver asks for.
pub struct AutosolverStep {
    /// The edges to toggle for the player.
    pub toggles: Vec<ToggleEdge>,
    /// Whether the solver found nothing left to draw and stopped.
    pub done: bool,
}

impl Autosolver {
    /// A solver that does not run.
    pub fn new() -> (s: Autosolver)
        ensures
            s == (Autosolver { elapsed_ms: 0, enabled: false }),
    {
        Autosolver { elapsed_ms: 0, enabled: false }
    }

    /// Starts the solver if it does not run, stops it if it does.
    pub fn toggle(&mut self)
        ensures
            final(self).enabled == !old(self).enabled,
            final(self).elapsed_ms == old(self).elapsed_ms,
    {
        self.enabled = !self.enabled;
    }

    /// Lets `dt_ms` milliseconds pass. The result says whether a period has
    /// ended in that time; what is left over of the time counts on.
    pub fn tick(&mut self, dt_ms: u32) -> (fired: bool)
        ensures
            fired == (old(self).elapsed_ms + dt_ms >= PERIOD_MS),
            final(self).elapsed_ms == (old(self).elapsed_ms + dt_ms) % (PERIOD_MS as int),
            final(self).enabled == old(self).enabled,
    {
        let total: u64 = self.elapsed_ms as u64 + dt_ms as u64;
        self.elapsed_ms = (total % 100) as u32;
        total >= 100
    }

    /// One frame of the solver, `dt_ms` milliseconds after the last. A
    /// solver that does not run does nothing. A solver that runs lets the
    /// time pass and, when a period has ended, asks to toggle the first
    /// `EDGES_PER_ROUND` solution edges that the player has not drawn; where
    /// there is none, it stops.
    pub fn step(&mut self, dt_ms: u32, puzzle: &Puzzle) -> (step: AutosolverStep)
        requires
            puzzle.wf(),
        ensures
            !old(self).enabled ==> *final(self) == *old(self) && step.toggles@.len() == 0
                && !step.done,
            old(self).enabled ==> final(self).elapsed_ms == (old(self).elapsed_ms + dt_ms) % (
            PERIOD_MS as int),
            old(self).enabled && old(self).elapsed_ms + dt_ms < PERIOD_MS ==> final(self).enabled
                && step.toggles@.len() == 0 && !step.done,
            old(self).enabled && old(self).elapsed_ms + dt_ms >= PERIOD_MS ==> {
                let edges = missing_edges(puzzle, EDGES_PER_ROUND as int);
                &&& step.toggles@.len() == edges.len()
                &&& forall|i: int|
                    0 <= i < edges.len() ==> #[trigger] step.toggles@[i] == ToggleEdge(
                        edges[i].0,
                        edges[i].1,
                    )
                &&& step.done == (edges.len() == 0)
                &&& final(self).enabled == (edges.len() > 0)
            },
    {
        let mut toggles: Vec<ToggleEdge> = Vec::new();
        if !self.enabled {
            return AutosolverStep { toggles, done: false };
        }
        if !self.tick(dt_ms) {
            return AutosolverStep { toggles, done: false };
        }
        let edges = first_missing(puzzle, EDGES_PER_ROUND);
        let done = edges.len() == 0;
        if done {
            self.enabled = false;
        }
        let mut i: usize = 0;
        while i < edges.len()
            invariant
                0 <= i <= edges@.len(),
                toggles@.len() == i,
                forall|j: int|
                    0 <= j < i ==> #[trigger] toggles@[j] == ToggleEdge(edges@[j].0, edges@[j].1),
            decreases edges@.len() - i,
        {
            toggles.push(ToggleEdge(edges[i].0, edges[i].1));
            i += 1;
        }
        AutosolverStep { toggles, done }
    }
}

} // verus!
