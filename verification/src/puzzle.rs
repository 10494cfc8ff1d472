//! The puzzle: vertices, the solution edges, the edges that the player has
//! drawn, and the triangles that the solution closes.

use vstd::prelude::*;
use crate::color::{is_pastel, random_color, Color};
use crate::cursor::SelectedVertices;
use crate::edge::{
    apart_from_fn, joined, order_toggled, order_with, order_without, toggled, touches, with_edge,
    without_edge, without_inner, without_vertex, Edges,
};
use crate::geometry::{dist_sq, point_in_triangle, strictly_inside, Point};
use crate::seq_facts::{lemma_occurs_before, occurs_before};
use crate::quantize::{
    best_run, few_colors, is_best, kmeans, kmeans_run, lemma_best_unique, lemma_requantized_few,
    opaque_of, quantized, requantized, rgb_of, rgb_seq, run_scores, scores_of, Clustering, Rgb,
    CONVERGENCE, MAX_ITERATIONS, RUNS, WORST_SCORE,
};
use crate::triangle::{closed_in, has_corner, sorted_key, triangle_key, Triangle, TriangleKey};
use crate::triangulate::{
    delaunay, delaunay_triangles, given_before, order_after_triples, order_committed, side_gives,
    triangulated, triangulated_order, triple_gives, MAX_EDGE_LENGTH,
};
use crate::vec_map::VecMap;
use crate::vertex::{fresh_vertex, Vertex};

verus! {

/// The triangles `after` are those that a recomputation makes of `before`
/// over the edge set `edges` and the stored vertex ids `stored`:
/// - a triangle is there if and only if its three sides are edges and it
///   either was there before or its largest corner is a stored vertex;
/// - a triangle that was there before has kept its colour;
/// - a new triangle has a pastel colour.
pub open spec fn rederived(
    before: Map<TriangleKey, Triangle>,
    after: Map<TriangleKey, Triangle>,
    edges: Set<(usize, usize)>,
    stored: Set<usize>,
) -> bool {
    &&& forall|k: TriangleKey| #[trigger]
        after.dom().contains(k) <==> closed_in(edges, k) && (before.dom().contains(k)
            || stored.contains(k.2))
    &&& forall|k: TriangleKey|
        before.dom().contains(k) && #[trigger] after.dom().contains(k) ==> after[k] == before[k]
    &&& forall|k: TriangleKey| #[trigger]
        after.dom().contains(k) && !before.dom().contains(k) ==> is_pastel(after[k].color)
}

/// The keys after the first `j` of the vertices `ids` were tried as the
/// largest corner of a triangle over the edge `e`: each new triangle whose
/// sides are edges comes last.
pub open spec fn keys_after_corners(
    keys: Seq<TriangleKey>,
    edges: Set<(usize, usize)>,
    e: (usize, usize),
    ids: Seq<usize>,
    j: nat,
) -> Seq<TriangleKey>
    decreases j,
{
    if j == 0 {
        keys
    } else {
        let prev = keys_after_corners(keys, edges, e, ids, (j - 1) as nat);
        let k = (e.0, e.1, ids[j - 1]);
        if closed_in(edges, k) && !prev.contains(k) {
            prev.push(k)
        } else {
            prev
        }
    }
}

/// The keys after every vertex of `ids` was tried over each of the first
/// `i` edges of `order`.
pub open spec fn keys_after_edges(
    keys: Seq<TriangleKey>,
    edges: Set<(usize, usize)>,
    order: Seq<(usize, usize)>,
    ids: Seq<usize>,
    i: nat,
) -> Seq<TriangleKey>
    decreases i,
{
    if i == 0 {
        keys
    } else {
        keys_after_corners(
            keys_after_edges(keys, edges, order, ids, (i - 1) as nat),
            edges,
            order[i - 1],
            ids,
            ids.len(),
        )
    }
}

/// A triangle whose three sides are among `edges`, as a function value.
pub open spec fn closed_fn(edges: Set<(usize, usize)>) -> spec_fn(TriangleKey) -> bool {
    |k: TriangleKey| closed_in(edges, k)
}

/// The keys of the triangles after a recomputation, in order: the keys
/// `keys` that were there, then the new ones, found edge by edge in the
/// order `order` and for each edge vertex by vertex in the order `ids`; of
/// all of them those whose three sides are among `edges`.
pub open spec fn rederived_keys(
    keys: Seq<TriangleKey>,
    edges: Set<(usize, usize)>,
    order: Seq<(usize, usize)>,
    ids: Seq<usize>,
) -> Seq<TriangleKey> {
    keys_after_edges(keys, edges, order, ids, order.len()).filter(closed_fn(edges))
}

/// A triangle that a recomputation adds: its sides are edges and its largest
/// corner is a stored vertex.
pub open spec fn candidate(edges: Set<(usize, usize)>, stored: Set<usize>, k: TriangleKey) -> bool {
    closed_in(edges, k) && stored.contains(k.2)
}

/// After a recomputation every triangle has its three sides among the
/// edges, found from either end.
pub proof fn lemma_rederived_closed(
    before: Map<TriangleKey, Triangle>,
    after: Map<TriangleKey, Triangle>,
    edges: Set<(usize, usize)>,
    stored: Set<usize>,
    k: TriangleKey,
)
    requires
        rederived(before, after, edges, stored),
        after.dom().contains(k),
    ensures
        closed_in(edges, k),
        joined(edges, k.0, k.1) && joined(edges, k.1, k.0),
        joined(edges, k.0, k.2) && joined(edges, k.2, k.0),
        joined(edges, k.1, k.2) && joined(edges, k.2, k.1),
{
}

/// A recomputation over an edge set from which one side of a triangle was
/// removed does not keep that triangle.
pub proof fn lemma_side_removed(
    before: Map<TriangleKey, Triangle>,
    after: Map<TriangleKey, Triangle>,
    edges: Set<(usize, usize)>,
    stored: Set<usize>,
    k: TriangleKey,
    a: usize,
    b: usize,
)
    requires
        rederived(before, after, without_edge(edges, a, b), stored),
        has_corner(k, a),
        has_corner(k, b),
        a != b,
    ensures
        !after.dom().contains(k),
{
    if after.dom().contains(k) {
        assert(closed_in(without_edge(edges, a, b), k));
    }
}

/// Where the larger end of every edge is a stored vertex, a recomputation
/// leaves exactly the triangles whose three sides are edges.
pub proof fn lemma_rederived_exact(
    before: Map<TriangleKey, Triangle>,
    after: Map<TriangleKey, Triangle>,
    edges: Set<(usize, usize)>,
    stored: Set<usize>,
    k: TriangleKey,
)
    requires
        rederived(before, after, edges, stored),
        forall|e: (usize, usize)| #[trigger] edges.contains(e) ==> stored.contains(e.1),
    ensures
        after.dom().contains(k) <==> closed_in(edges, k),
{
    if closed_in(edges, k) {
        assert(edges.contains((k.1, k.2)));
        assert(stored.contains(k.2));
    }
}

/// One of the `runs` clusterings of `colors` has a score that beats
/// `WORST_SCORE`, so that a clustering is kept.
pub open spec fn some_run_kept(
    colors: Seq<Color>,
    k: u16,
    runs: u16,
    max_iter: usize,
    converge: (u16, i8),
) -> bool {
    exists|i: int|
        0 <= i < runs && #[trigger] run_scores(k, runs, max_iter, converge, rgb_seq(colors))[i]
            < WORST_SCORE
}

/// The clustering `run` of `n` colours into `k` clusters gives every colour
/// an index, has at most `k` centroids, has a centroid where `k` is not
/// zero, and then every index names a centroid.
pub open spec fn clustered(run: Clustering, k: int, n: int) -> bool {
    &&& run.indices@.len() == n
    &&& run.centroids@.len() <= k
    &&& k > 0 ==> run.centroids@.len() > 0
    &&& forall|i: int|
        0 <= i < run.indices@.len() && run.centroids@.len() > 0 ==> #[trigger] run.indices@[i]
            < run.centroids@.len()
}

/// A puzzle: its title, its vertices by id, the solution edges, the edges
/// that the player has drawn, and the triangles that the solution edges
/// close, each with its colour.
pub struct Puzzle {
    title: String,
    next_vertex_id: usize,
    vertices: VecMap<usize, Vertex>,
    solution_edges: Edges,
    game_edges: Edges,
    triangles: VecMap<TriangleKey, Triangle>,
}

impl Puzzle {
    /// The title.
    pub closed spec fn title_text(&self) -> Seq<char> {
        self.title@
    }

    /// The id that the next new vertex gets.
    pub closed spec fn next_id(&self) -> usize {
        self.next_vertex_id
    }

    /// The stored vertices by id.
    pub closed spec fn vertex_map(&self) -> Map<usize, Vertex> {
        self.vertices.map()
    }

    /// The ids of the stored vertices in the order in which they were added.
    pub closed spec fn vertex_ids(&self) -> Seq<usize> {
        self.vertices.keys()
    }

    /// The solution edges.
    pub closed spec fn solution(&self) -> Set<(usize, usize)> {
        self.solution_edges@
    }

    /// The solution edges in the order in which they were added.
    pub closed spec fn solution_order(&self) -> Seq<(usize, usize)> {
        self.solution_edges.order()
    }

    /// The edges that the player has drawn.
    pub closed spec fn game(&self) -> Set<(usize, usize)> {
        self.game_edges@
    }

    /// The edges that the player has drawn, in the order in which they were
    /// added.
    pub closed spec fn game_order(&self) -> Seq<(usize, usize)> {
        self.game_edges.order()
    }

    /// The triangles by key.
    pub closed spec fn triangle_map(&self) -> Map<TriangleKey, Triangle> {
        self.triangles.map()
    }

    /// The keys of the triangles in the order in which they were found.
    pub closed spec fn triangle_keys(&self) -> Seq<TriangleKey> {
        self.triangles.keys()
    }

    /// The colours of the triangles, in the order of `triangle_keys`.
    pub closed spec fn triangle_colors(&self) -> Seq<Color> {
        Seq::new(self.triangles.vals().len(), |i: int| self.triangles.vals()[i].color)
    }

    spec fn wf_parts(&self) -> bool {
        &&& self.vertices.wf()
        &&& self.solution_edges.wf()
        &&& self.game_edges.wf()
        &&& self.triangles.wf()
        &&& forall|id: usize| #[trigger]
            self.vertices.map().dom().contains(id) ==> id < self.next_vertex_id
    }

    /// No id, edge or triangle is held twice, every stored vertex has an id
    /// below `next_id`, and every triangle has its three sides among the
    /// solution edges.
    pub closed spec fn wf(&self) -> bool {
        &&& self.wf_parts()
        &&& forall|k: TriangleKey| #[trigger]
            self.triangles.map().dom().contains(k) ==> closed_in(self.solution_edges@, k)
    }

    /// Everything but the triangles is the same in `self` and `other`.
    pub open spec fn same_graph(&self, other: &Puzzle) -> bool {
        &&& self.title_text() == other.title_text()
        &&& self.next_id() == other.next_id()
        &&& self.vertex_map() == other.vertex_map()
        &&& self.vertex_ids() == other.vertex_ids()
        &&& self.solution() == other.solution()
        &&& self.solution_order() == other.solution_order()
        &&& self.game() == other.game()
        &&& self.game_order() == other.game_order()
    }

    /// Title, vertices and the next id are the same in `self` and `other`.
    pub open spec fn same_vertices(&self, other: &Puzzle) -> bool {
        &&& self.title_text() == other.title_text()
        &&& self.next_id() == other.next_id()
        &&& self.vertex_map() == other.vertex_map()
        &&& self.vertex_ids() == other.vertex_ids()
    }

    /// The solution edges are the same in `self` and `other`.
    pub open spec fn same_solution(&self, other: &Puzzle) -> bool {
        &&& self.solution() == other.solution()
        &&& self.solution_order() == other.solution_order()
    }

    /// The player's edges are the same in `self` and `other`.
    pub open spec fn same_game(&self, other: &Puzzle) -> bool {
        &&& self.game() == other.game()
        &&& self.game_order() == other.game_order()
    }

    /// The triangles are the same in `self` and `other`.
    pub open spec fn same_triangles(&self, other: &Puzzle) -> bool {
        &&& self.triangle_map() == other.triangle_map()
        &&& self.triangle_keys() == other.triangle_keys()
        &&& self.triangle_colors() == other.triangle_colors()
    }

    /// The triangles of `self` are those that a recomputation makes of the
    /// triangles of `before` over the solution edges and the vertices of
    /// `self`, and they stand in the order of that recomputation.
    pub open spec fn recomputed(&self, before: &Puzzle) -> bool {
        &&& rederived(
            before.triangle_map(),
            self.triangle_map(),
            self.solution(),
            self.vertex_map().dom(),
        )
        &&& self.triangle_keys() == rederived_keys(
            before.triangle_keys(),
            self.solution(),
            self.solution_order(),
            self.vertex_ids(),
        )
    }

    /// What `wf` says of the parts.
    pub proof fn lemma_wf(&self)
        requires
            self.wf(),
        ensures
            forall|k: TriangleKey| #[trigger]
                self.triangle_map().dom().contains(k) ==> closed_in(self.solution(), k),
            forall|id: usize| #[trigger]
                self.vertex_map().dom().contains(id) ==> id < self.next_id(),
            forall|e: (usize, usize)| #[trigger] self.solution().contains(e) ==> e.0 < e.1,
            forall|e: (usize, usize)| #[trigger] self.game().contains(e) ==> e.0 < e.1,
            self.vertex_ids().no_duplicates(),
            self.vertex_ids().to_set() == self.vertex_map().dom(),
            self.triangle_keys().no_duplicates(),
            self.triangle_keys().to_set() == self.triangle_map().dom(),
            self.triangle_colors().len() == self.triangle_keys().len(),
            forall|i: int|
                0 <= i < self.triangle_keys().len() ==> self.triangle_map()[#[trigger] self.triangle_keys()[i]].color
                    == self.triangle_colors()[i],
            self.solution_order().no_duplicates(),
            self.solution_order().to_set() == self.solution(),
            self.game_order().no_duplicates(),
            self.game_order().to_set() == self.game(),
    {
        self.vertices.lemma_entries();
        self.triangles.lemma_entries();
        self.solution_edges.lemma_order();
        self.game_edges.lemma_order();
    }

    /// A puzzle without vertices, edges or triangles.
    pub fn empty(title: String) -> (p: Puzzle)
        ensures
            p.wf(),
            p.title_text() == title@,
            p.next_id() == 0,
            p.vertex_map() == Map::<usize, Vertex>::empty(),
            p.solution() == Set::<(usize, usize)>::empty(),
            p.game() == Set::<(usize, usize)>::empty(),
            p.triangle_map() == Map::<TriangleKey, Triangle>::empty(),
            p.vertex_ids() == Seq::<usize>::empty(),
            p.solution_order() == Seq::<(usize, usize)>::empty(),
            p.game_order() == Seq::<(usize, usize)>::empty(),
            p.triangle_keys() == Seq::<TriangleKey>::empty(),
    {
        Puzzle {
            title,
            next_vertex_id: 0,
            vertices: VecMap::new(),
            solution_edges: Edges::new(),
            game_edges: Edges::new(),
            triangles: VecMap::new(),
        }
    }

    /// The title.
    pub fn title(&self) -> (t: &str)
        ensures
            t@ == self.title_text(),
    {
        self.title.as_str()
    }

    /// Whether an id is left for one more vertex.
    pub fn has_free_id(&self) -> (b: bool)
        ensures
            b == (self.next_id() < usize::MAX),
    {
        self.next_vertex_id < usize::MAX
    }

    /// Stores a new vertex at `p` under the next id, which is returned. Ids
    /// are never given twice, also not after a removal. The caller sees to
    /// it that an id is left.
    pub fn add_point(&mut self, p: Point) -> (id: usize)
        requires
            old(self).wf(),
            old(self).next_id() < usize::MAX,
        ensures
            final(self).wf(),
            id == old(self).next_id(),
            final(self).next_id() == id + 1,
            !old(self).vertex_map().dom().contains(id),
            final(self).vertex_map() == old(self).vertex_map().insert(id, fresh_vertex(p)),
            final(self).vertex_ids() == old(self).vertex_ids().push(id),
            final(self).title_text() == old(self).title_text(),
            final(self).solution() == old(self).solution(),
            final(self).solution_order() == old(self).solution_order(),
            final(self).game() == old(self).game(),
            final(self).game_order() == old(self).game_order(),
            final(self).same_triangles(old(self)),
    {
        let id = self.next_vertex_id;
        self.next_vertex_id = id + 1;
        self.vertices.insert(id, Vertex::new(p));
        id
    }

    /// The vertex with id `n`, if it is stored.
    pub fn vertex_n(&self, n: usize) -> (v: Option<&Vertex>)
        requires
            self.wf(),
        ensures
            match v {
                Some(v) => self.vertex_map().dom().contains(n) && *v == self.vertex_map()[n],
                None => !self.vertex_map().dom().contains(n),
            },
    {
        self.vertices.get(&n)
    }

    /// Recomputes the triangles from the solution edges.
    fn update_triangles(&mut self)
        requires
            old(self).wf_parts(),
        ensures
            final(self).wf(),
            final(self).same_graph(old(self)),
            final(self).recomputed(old(self)),
    {
        let ghost start = *self;
        let ghost edges = self.solution_edges@;
        let ghost order = self.solution_edges.order();
        let ghost stored = self.vertices.map().dom();
        let ghost ids = self.vertices.keys();
        let ghost old_map = self.triangles.map();
        let ghost old_keys = self.triangles.keys();
        proof {
            self.solution_edges.lemma_order();
            self.vertices.lemma_entries();
        }
        let n_edges = self.solution_edges.len();
        let n_ids = self.vertices.len();
        let mut i: usize = 0;
        while i < n_edges
            invariant
                0 <= i <= n_edges,
                n_edges == order.len(),
                n_ids == ids.len(),
                self.wf_parts(),
                self.same_graph(&start),
                self.solution_edges@ == edges,
                self.solution_edges.order() == order,
                self.vertices.map().dom() == stored,
                self.vertices.keys() == ids,
                order.to_set() == edges,
                ids.to_set() == stored,
                forall|n: int| 0 <= n < order.len() ==> (#[trigger] order[n]).0 < order[n].1,
                forall|k: TriangleKey| #[trigger]
                    self.triangles.map().dom().contains(k) <==> old_map.dom().contains(k) || (
                    candidate(edges, stored, k) && occurs_before(order, (k.0, k.1), i as int)),
                self.triangles.keys() == keys_after_edges(old_keys, edges, order, ids, i as nat),
                forall|k: TriangleKey|
                    old_map.dom().contains(k) && #[trigger] self.triangles.map().dom().contains(k)
                        ==> self.triangles.map()[k] == old_map[k],
                forall|k: TriangleKey| #[trigger]
                    self.triangles.map().dom().contains(k) && !old_map.dom().contains(k)
                        ==> is_pastel(self.triangles.map()[k].color),
            decreases n_edges - i,
        {
            let e = self.solution_edges.get(i);
            let u = e.0;
            let v = e.1;
            assert(order[i as int] == e);
            assert(u < v);
            assert(edges.contains((u, v))) by {
                assert(order.contains(order[i as int]));
            }
            let mut j: usize = 0;
            while j < n_ids
                invariant
                    0 <= i < n_edges,
                    0 <= j <= n_ids,
                    n_edges == order.len(),
                    n_ids == ids.len(),
                    self.wf_parts(),
                    self.same_graph(&start),
                    self.solution_edges@ == edges,
                    self.solution_edges.order() == order,
                    self.vertices.map().dom() == stored,
                    self.vertices.keys() == ids,
                    order.to_set() == edges,
                    ids.to_set() == stored,
                    order[i as int] == (u, v),
                    u < v,
                    edges.contains((u, v)),
                    forall|k: TriangleKey| #[trigger]
                        self.triangles.map().dom().contains(k) <==> old_map.dom().contains(k) || (
                        candidate(edges, stored, k) && (occurs_before(order, (k.0, k.1), i as int)
                            || ((k.0, k.1) == (u, v) && occurs_before(ids, k.2, j as int)))),
                    self.triangles.keys() == keys_after_corners(
                        keys_after_edges(old_keys, edges, order, ids, i as nat),
                        edges,
                        (u, v),
                        ids,
                        j as nat,
                    ),
                    forall|k: TriangleKey|
                        old_map.dom().contains(k) && #[trigger] self.triangles.map().dom().contains(
                            k,
                        ) ==> self.triangles.map()[k] == old_map[k],
                    forall|k: TriangleKey| #[trigger]
                        self.triangles.map().dom().contains(k) && !old_map.dom().contains(k)
                            ==> is_pastel(self.triangles.map()[k].color),
                decreases n_ids - j,
            {
                let w = self.vertices.key_at(j);
                let key: TriangleKey = (u, v, w);
                let ghost before = self.triangles.map();
                proof {
                    self.triangles.lemma_entries();
                    assert(self.triangles.keys().contains(key) == before.dom().contains(key));
                    assert(ids.contains(ids[j as int]));
                    assert(stored.contains(w));
                    assert forall|k: TriangleKey|
                        occurs_before(ids, k.2, j + 1) <==> occurs_before(ids, k.2, j as int)
                            || k.2 == w by {
                        lemma_occurs_before(ids, k.2, j as int);
                    }
                }
                let mut fresh = false;
                if v < w && self.solution_edges.is_edge(v, w) && self.solution_edges.is_edge(u, w) {
                    assert(candidate(edges, stored, key));
                    assert(closed_in(edges, key));
                    if !self.triangles.contains_key(&key) {
                        let color = random_color();
                        self.triangles.insert(key, Triangle::new(color));
                        fresh = true;
                    }
                } else {
                    assert(!candidate(edges, stored, key));
                    assert(!closed_in(edges, key));
                }
                proof {
                    assert forall|k: TriangleKey| #[trigger]
                        self.triangles.map().dom().contains(k) <==> old_map.dom().contains(k) || (
                        candidate(edges, stored, k) && (occurs_before(order, (k.0, k.1), i as int)
                            || ((k.0, k.1) == (u, v) && occurs_before(ids, k.2, j + 1)))) by {
                        assert(before.dom().contains(k) <==> old_map.dom().contains(k) || (
                        candidate(edges, stored, k) && (occurs_before(order, (k.0, k.1), i as int)
                            || ((k.0, k.1) == (u, v) && occurs_before(ids, k.2, j as int)))));
                        if k == key {
                        } else {
                            if fresh {
                                assert(self.triangles.map().dom().contains(k)
                                    == before.dom().contains(k));
                            }
                        }
                    }
                }
                j += 1;
            }
            proof {
                assert forall|k: TriangleKey| #[trigger]
                    self.triangles.map().dom().contains(k) <==> old_map.dom().contains(k) || (
                    candidate(edges, stored, k) && occurs_before(order, (k.0, k.1), i + 1)) by {
                    lemma_occurs_before(order, (k.0, k.1), i as int);
                    lemma_occurs_before(ids, k.2, j as int);
                }
            }
            i += 1;
        }
        let ghost grown = self.triangles.map();
        proof {
            assert forall|k: TriangleKey| #[trigger]
                grown.dom().contains(k) <==> old_map.dom().contains(k) || candidate(
                    edges,
                    stored,
                    k,
                ) by {
                lemma_occurs_before(order, (k.0, k.1), i as int);
            }
            self.triangles.lemma_entries();
        }
        let ghost keys = self.triangles.keys();
        let mut kept: VecMap<TriangleKey, Triangle> = VecMap::new();
        proof {
            reveal(Seq::filter);
            assert(keys.take(0).filter(closed_fn(edges)) =~= Seq::<TriangleKey>::empty());
        }
        let n_keys = self.triangles.len();
        let mut t: usize = 0;
        while t < n_keys
            invariant
                0 <= t <= n_keys,
                n_keys == keys.len(),
                self.wf_parts(),
                self.same_graph(&start),
                self.solution_edges@ == edges,
                self.triangles.map() == grown,
                self.triangles.keys() == keys,
                keys.to_set() == grown.dom(),
                kept.wf(),
                kept.keys() == keys.take(t as int).filter(closed_fn(edges)),
                forall|k: TriangleKey| #[trigger]
                    kept.map().dom().contains(k) <==> occurs_before(keys, k, t as int) && closed_in(
                        edges,
                        k,
                    ),
                forall|k: TriangleKey| #[trigger]
                    kept.map().dom().contains(k) ==> kept.map()[k] == grown[k],
            decreases n_keys - t,
        {
            let key = self.triangles.key_at(t);
            let value = *self.triangles.value_at(t);
            proof {
                assert(keys.take(t + 1) =~= keys.take(t as int).push(key));
                Seq::lemma_filter_push(keys.take(t as int), key, closed_fn(edges));
                self.triangles.lemma_entries();
                assert(grown[key] == value);
                assert forall|k: TriangleKey|
                    occurs_before(keys, k, t + 1) <==> occurs_before(keys, k, t as int) || k
                        == key by {
                    lemma_occurs_before(keys, k, t as int);
                }
            }
            if key.0 < key.1 && key.1 < key.2 && self.solution_edges.is_edge(key.0, key.1)
                && self.solution_edges.is_edge(key.1, key.2) && self.solution_edges.is_edge(
                key.0,
                key.2,
            ) {
                assert(closed_in(edges, key));
                proof {
                    if kept.map().dom().contains(key) {
                        let w = choose|w: int|
                            0 <= w < t && w < keys.len() && #[trigger] keys[w] == key;
                        assert(keys[w] == keys[t as int]);
                        assert(false);
                    }
                }
                kept.insert(key, value);
            } else {
                assert(!closed_in(edges, key));
            }
            t += 1;
        }
        proof {
            assert forall|k: TriangleKey| #[trigger]
                kept.map().dom().contains(k) <==> grown.dom().contains(k) && closed_in(
                    edges,
                    k,
                ) by {
                lemma_occurs_before(keys, k, t as int);
            }
            assert(keys.take(t as int) =~= keys);
        }
        self.triangles = kept;
    }

    /// Recomputes the triangles from the solution edges.
    pub fn update(&mut self)
        requires
            old(self).wf(),
        ensures
            final(self).wf(),
            final(self).same_graph(old(self)),
            final(self).recomputed(old(self)),
    {
        self.update_triangles();
    }

    /// Adds the solution edge between `a` and `b` and recomputes the
    /// triangles.
    pub fn add_solution_edge(&mut self, a: usize, b: usize)
        requires
            old(self).wf(),
        ensures
            final(self).wf(),
            final(self).same_vertices(old(self)),
            final(self).same_game(old(self)),
            final(self).solution() == with_edge(old(self).solution(), a, b),
            final(self).solution_order() == order_with(old(self).solution_order(), a, b),
            final(self).recomputed(old(self)),
    {
        self.solution_edges.add_edge(a, b);
        self.update_triangles();
    }

    /// Adds the edge between `a` and `b` to those that the player has drawn.
    pub fn add_game_edge(&mut self, a: usize, b: usize)
        requires
            old(self).wf(),
        ensures
            final(self).wf(),
            final(self).same_vertices(old(self)),
            final(self).same_solution(old(self)),
            final(self).same_triangles(old(self)),
            final(self).game() == with_edge(old(self).game(), a, b),
            final(self).game_order() == order_with(old(self).game_order(), a, b),
    {
        self.game_edges.add_edge(a, b);
    }

    /// Removes the solution edge between `a` and `b` and recomputes the
    /// triangles.
    pub fn remove_solution_edge(&mut self, a: usize, b: usize)
        requires
            old(self).wf(),
        ensures
            final(self).wf(),
            final(self).same_vertices(old(self)),
            final(self).same_game(old(self)),
            final(self).solution() == without_edge(old(self).solution(), a, b),
            final(self).solution_order() == order_without(old(self).solution_order(), a, b),
            final(self).recomputed(old(self)),
    {
        self.solution_edges.remove_edge(a, b);
        self.update_triangles();
    }

    /// Removes the edge between `a` and `b` from those that the player has
    /// drawn.
    pub fn remove_game_edge(&mut self, a: usize, b: usize)
        requires
            old(self).wf(),
        ensures
            final(self).wf(),
            final(self).same_vertices(old(self)),
            final(self).same_solution(old(self)),
            final(self).same_triangles(old(self)),
            final(self).game() == without_edge(old(self).game(), a, b),
            final(self).game_order() == order_without(old(self).game_order(), a, b),
    {
        self.game_edges.remove_edge(a, b);
    }

    /// Toggles the edge between `a` and `b`: among the player's edges while
    /// playing, among the solution edges (with a recomputation of the
    /// triangles) while editing.
    pub fn toggle_edge(&mut self, a: usize, b: usize, is_play: bool)
        requires
            old(self).wf(),
        ensures
            final(self).wf(),
            final(self).same_vertices(old(self)),
            is_play ==> final(self).same_solution(old(self)) && final(self).same_triangles(
                old(self),
            ) && final(self).game() == toggled(old(self).game(), a, b) && final(self).game_order()
                == order_toggled(old(self).game_order(), a, b),
            !is_play ==> final(self).same_game(old(self)) && final(self).solution() == toggled(
                old(self).solution(),
                a,
                b,
            ) && final(self).solution_order() == order_toggled(old(self).solution_order(), a, b)
                && final(self).recomputed(old(self)),
    {
        if is_play {
            self.game_edges.toggle(a, b);
        } else {
            self.solution_edges.toggle(a, b);
            self.update_triangles();
        }
    }

    /// Removes vertex `id` with every edge of either set that touches it and
    /// every triangle of which it is a corner.
    pub fn remove_vertex(&mut self, id: usize)
        requires
            old(self).wf(),
        ensures
            final(self).wf(),
            final(self).title_text() == old(self).title_text(),
            final(self).next_id() == old(self).next_id(),
            final(self).vertex_map() == old(self).vertex_map().remove(id),
            final(self).vertex_ids() == if old(self).vertex_map().dom().contains(id) {
                old(self).vertex_ids().remove(old(self).vertex_ids().index_of(id))
            } else {
                old(self).vertex_ids()
            },
            final(self).solution() == without_vertex(old(self).solution(), id),
            final(self).solution_order() == old(self).solution_order().filter(apart_from_fn(id)),
            final(self).game() == without_vertex(old(self).game(), id),
            final(self).game_order() == old(self).game_order().filter(apart_from_fn(id)),
            final(self).recomputed(old(self)),
            forall|k: TriangleKey| #[trigger]
                final(self).triangle_map().dom().contains(k) ==> !has_corner(k, id),
            forall|e: (usize, usize)| #[trigger]
                final(self).solution().contains(e) ==> e.0 != id && e.1 != id,
            forall|e: (usize, usize)| #[trigger]
                final(self).game().contains(e) ==> e.0 != id && e.1 != id,
    {
        let ghost before = *self;
        proof {
            before.lemma_wf();
        }
        self.vertices.remove(&id);
        self.solution_edges.remove_vertex(id);
        self.game_edges.remove_vertex(id);
        self.update_triangles();
        proof {
            assert forall|k: TriangleKey| #[trigger]
                self.triangle_map().dom().contains(k) implies !has_corner(k, id) by {
                assert(closed_in(self.solution(), k));
            }
        }
    }

    /// Whether the player has drawn exactly the solution edges.
    pub fn is_complete(&self) -> (done: bool)
        requires
            self.wf(),
        ensures
            done == (self.game() == self.solution()),
    {
        self.solution_edges.same_edges(&self.game_edges)
    }

    /// Draws every solution edge for the player.
    pub fn complete(&mut self)
        requires
            old(self).wf(),
        ensures
            final(self).wf(),
            final(self).same_vertices(old(self)),
            final(self).same_solution(old(self)),
            final(self).same_triangles(old(self)),
            final(self).game() == old(self).solution(),
            final(self).game_order() == old(self).solution_order(),
    {
        self.game_edges = self.solution_edges.clone();
    }

    /// Takes every edge that the player has drawn away.
    pub fn decomplete(&mut self)
        requires
            old(self).wf(),
        ensures
            final(self).wf(),
            final(self).same_vertices(old(self)),
            final(self).same_solution(old(self)),
            final(self).same_triangles(old(self)),
            final(self).game() == Set::<(usize, usize)>::empty(),
            final(self).game_order() == Seq::<(usize, usize)>::empty(),
    {
        self.game_edges.clear();
    }

    /// The solution edges in the order in which they were added.
    pub fn solution_pairs(&self) -> (pairs: Vec<(usize, usize)>)
        ensures
            pairs@ == self.solution_order(),
    {
        self.solution_edges.to_vec()
    }

    /// The edges that the player has drawn, in the order in which they were
    /// added.
    pub fn game_pairs(&self) -> (pairs: Vec<(usize, usize)>)
        ensures
            pairs@ == self.game_order(),
    {
        self.game_edges.to_vec()
    }

    /// The keys of the triangles in the order in which they were found.
    pub fn triangle_keys_vec(&self) -> (keys: Vec<TriangleKey>)
        ensures
            keys@ == self.triangle_keys(),
    {
        let mut keys: Vec<TriangleKey> = Vec::new();
        let n = self.triangles.len();
        let mut i: usize = 0;
        while i < n
            invariant
                0 <= i <= n,
                n == self.triangles.keys().len(),
                keys@ == self.triangles.keys().take(i as int),
            decreases n - i,
        {
            keys.push(self.triangles.key_at(i));
            assert(self.triangles.keys().take(i + 1) =~= self.triangles.keys().take(
                i as int,
            ).push(self.triangles.keys()[i as int]));
            i += 1;
        }
        assert(self.triangles.keys().take(n as int) =~= self.triangles.keys());
        keys
    }

    /// The stored vertices with their ids, in the order in which they were
    /// added.
    pub fn vertices(&self) -> (list: Vec<(usize, Vertex)>)
        requires
            self.wf(),
        ensures
            list@.len() == self.vertex_ids().len(),
            forall|i: int|
                0 <= i < list@.len() ==> (#[trigger] list@[i]).0 == self.vertex_ids()[i]
                    && list@[i].1 == self.vertex_map()[self.vertex_ids()[i]],
    {
        let mut list: Vec<(usize, Vertex)> = Vec::new();
        let mut i: usize = 0;
        proof {
            self.vertices.lemma_entries();
        }
        while i < self.vertices.len()
            invariant
                i <= self.vertices.keys().len(),
                self.vertices.wf(),
                list@.len() == i,
                forall|j: int|
                    0 <= j < i ==> (#[trigger] list@[j]).0 == self.vertices.keys()[j] && list@[j].1
                        == self.vertices.vals()[j],
            decreases self.vertices.keys().len() - i,
        {
            list.push((self.vertices.key_at(i), *self.vertices.value_at(i)));
            i += 1;
        }
        list
    }

    /// Vertex `id` is stored and lies within `radius` of `p`.
    pub open spec fn near(&self, id: usize, p: Point, radius: u32) -> bool {
        self.vertex_map().dom().contains(id) && dist_sq(self.vertex_map()[id].pos, p) <= radius
            * radius
    }

    /// Squared distance from vertex `id` to `p`.
    pub open spec fn dist_to(&self, id: usize, p: Point) -> int {
        dist_sq(self.vertex_map()[id].pos, p)
    }

    /// `found` is the stored vertex nearest to `p` among those within
    /// `max_radius` of it, of several nearest ones the one that was added
    /// first; it is `None` where no stored vertex lies within `max_radius`.
    pub open spec fn is_nearest(&self, p: Point, max_radius: u32, found: Option<usize>) -> bool {
        match found {
            Some(id) => {
                &&& self.near(id, p, max_radius)
                &&& forall|other: usize| #[trigger]
                    self.near(other, p, max_radius) ==> self.dist_to(id, p) <= self.dist_to(
                        other,
                        p,
                    )
                &&& forall|i: int, j: int|
                    0 <= i < j < self.vertex_ids().len() && #[trigger] self.vertex_ids()[j] == id
                        && self.near(#[trigger] self.vertex_ids()[i], p, max_radius)
                        ==> self.dist_to(id, p) < self.dist_to(self.vertex_ids()[i], p)
            },
            None => forall|id: usize| !#[trigger] self.near(id, p, max_radius),
        }
    }

    /// The stored vertex nearest to `p` among those within `max_radius` of
    /// it, found by looking at every vertex. Of several nearest ones the one
    /// that was added first is returned.
    pub fn vertex_at(&self, p: Point, max_radius: u32) -> (found: Option<usize>)
        requires
            self.wf(),
        ensures
            self.is_nearest(p, max_radius, found),
    {
        let ghost ids = self.vertices.keys();
        proof {
            self.vertices.lemma_entries();
        }
        let n = self.vertices.len();
        let mut best: Option<(usize, u128)> = None;
        let ghost mut best_at: int = 0;
        let mut i: usize = 0;
        while i < n
            invariant
                0 <= i <= n,
                n == ids.len(),
                ids == self.vertices.keys(),
                self.wf(),
                match best {
                    Some((id, d)) => {
                        &&& 0 <= best_at < i
                        &&& ids[best_at] == id
                        &&& self.near(id, p, max_radius)
                        &&& d == self.dist_to(id, p)
                        &&& forall|k: int|
                            0 <= k < i && self.near(#[trigger] ids[k], p, max_radius) ==> d
                                <= self.dist_to(ids[k], p)
                        &&& forall|k: int|
                            0 <= k < best_at && self.near(#[trigger] ids[k], p, max_radius) ==> d
                                < self.dist_to(ids[k], p)
                    },
                    None => forall|k: int| 0 <= k < i ==> !self.near(#[trigger] ids[k], p, max_radius),
                },
            decreases n - i,
        {
            let id = self.vertices.key_at(i);
            let v = self.vertices.value_at(i);
            let d = v.pos.distance_squared(p);
            let inside = v.pos.within(p, max_radius);
            proof {
                self.vertices.lemma_entries();
                assert(self.vertices.map().dom().contains(ids[i as int]));
                assert(self.vertices.map()[ids[i as int]] == *v);
                assert(inside == self.near(id, p, max_radius));
            }
            if inside {
                match best {
                    Some((_, dist)) => {
                        if d < dist {
                            best = Some((id, d));
                            proof {
                                best_at = i as int;
                            }
                        }
                    },
                    None => {
                        best = Some((id, d));
                        proof {
                            best_at = i as int;
                        }
                    },
                }
            }
            i += 1;
        }
        match best {
            Some((id, d)) => {
                proof {
                    assert forall|other: usize| #[trigger]
                        self.near(other, p, max_radius) implies self.dist_to(id, p) <= self.dist_to(
                        other,
                        p,
                    ) by {
                        let k = ids.index_of(other);
                        assert(ids[k] == other);
                    }
                    assert forall|a: int, b: int|
                        0 <= a < b < self.vertex_ids().len() && #[trigger] self.vertex_ids()[b]
                            == id && self.near(
                            #[trigger] self.vertex_ids()[a],
                            p,
                            max_radius,
                        ) implies self.dist_to(id, p) < self.dist_to(self.vertex_ids()[a], p) by {
                        assert(b == best_at);
                    }
                }
                Some(id)
            },
            None => {
                proof {
                    assert forall|id: usize| !#[trigger] self.near(id, p, max_radius) by {
                        if self.near(id, p, max_radius) {
                            let k = ids.index_of(id);
                            assert(ids[k] == id);
                        }
                    }
                }
                None
            },
        }
    }

    /// The two ends of edge `e`, each with its vertex, if both are stored.
    pub open spec fn ends(&self, e: (usize, usize)) -> Option<(usize, Vertex, usize, Vertex)> {
        if self.vertex_map().dom().contains(e.0) && self.vertex_map().dom().contains(e.1) {
            Some((e.0, self.vertex_map()[e.0], e.1, self.vertex_map()[e.1]))
        } else {
            None
        }
    }

    /// `ends` as a function value.
    pub open spec fn ends_fn(&self) -> spec_fn((usize, usize)) -> Option<
        (usize, Vertex, usize, Vertex),
    > {
        |e: (usize, usize)| self.ends(e)
    }

    /// The vertices at the two ends of edge `e`, if both are stored.
    pub open spec fn end_vertices_fn(&self) -> spec_fn((usize, usize)) -> Option<(Vertex, Vertex)> {
        |e: (usize, usize)|
            match self.ends(e) {
                Some(q) => Some((q.1, q.3)),
                None => None,
            }
    }

    /// The solution edges whose two ends are stored vertices, in the order
    /// in which the edges were added.
    pub fn solution_edges(&self) -> (list: Vec<(usize, Vertex, usize, Vertex)>)
        requires
            self.wf(),
        ensures
            list@ == self.solution_order().filter_map(self.ends_fn()),
    {
        let ghost order = self.solution_edges.order();
        let mut list: Vec<(usize, Vertex, usize, Vertex)> = Vec::new();
        let n = self.solution_edges.len();
        let mut i: usize = 0;
        while i < n
            invariant
                0 <= i <= n,
                n == order.len(),
                order == self.solution_edges.order(),
                self.wf(),
                list@ == order.take(i as int).filter_map(self.ends_fn()),
            decreases n - i,
        {
            let e = self.solution_edges.get(i);
            proof {
                order.lemma_filter_map_take_succ(self.ends_fn(), i as int);
            }
            match self.vertices.get(&e.0) {
                Some(v1) => {
                    match self.vertices.get(&e.1) {
                        Some(v2) => {
                            list.push((e.0, *v1, e.1, *v2));
                        },
                        None => {},
                    }
                },
                None => {},
            }
            i += 1;
        }
        assert(order.take(n as int) =~= order);
        list
    }

    /// The vertices at the ends of the player's edges whose two ends are
    /// stored vertices, in the order in which the edges were added.
    pub fn game_edges(&self) -> (list: Vec<(Vertex, Vertex)>)
        requires
            self.wf(),
        ensures
            list@ == self.game_order().filter_map(self.end_vertices_fn()),
    {
        let ghost order = self.game_edges.order();
        let mut list: Vec<(Vertex, Vertex)> = Vec::new();
        let n = self.game_edges.len();
        let mut i: usize = 0;
        while i < n
            invariant
                0 <= i <= n,
                n == order.len(),
                order == self.game_edges.order(),
                self.wf(),
                list@ == order.take(i as int).filter_map(self.end_vertices_fn()),
            decreases n - i,
        {
            let e = self.game_edges.get(i);
            proof {
                order.lemma_filter_map_take_succ(self.end_vertices_fn(), i as int);
            }
            match self.vertices.get(&e.0) {
                Some(v1) => {
                    match self.vertices.get(&e.1) {
                        Some(v2) => {
                            list.push((*v1, *v2));
                        },
                        None => {},
                    }
                },
                None => {},
            }
            i += 1;
        }
        assert(order.take(n as int) =~= order);
        list
    }

    /// Triangle `k` is shown: its sides are solution edges, while playing
    /// also edges that the player has drawn, and its corners are stored.
    pub open spec fn shown(&self, k: TriangleKey, is_play: bool) -> bool {
        &&& joined(self.solution(), k.0, k.1)
        &&& joined(self.solution(), k.0, k.2)
        &&& joined(self.solution(), k.1, k.2)
        &&& is_play ==> joined(self.game(), k.0, k.1) && joined(self.game(), k.0, k.2) && joined(
            self.game(),
            k.1,
            k.2,
        )
        &&& self.vertex_map().dom().contains(k.0)
        &&& self.vertex_map().dom().contains(k.1)
        &&& self.vertex_map().dom().contains(k.2)
    }

    /// The corners and the colour of triangle `k` if it is shown.
    pub open spec fn face(&self, k: TriangleKey, is_play: bool) -> Option<
        (Point, Point, Point, Color),
    > {
        if self.shown(k, is_play) {
            Some(
                (
                    self.vertex_map()[k.0].pos,
                    self.vertex_map()[k.1].pos,
                    self.vertex_map()[k.2].pos,
                    self.triangle_map()[k].color,
                ),
            )
        } else {
            None
        }
    }

    /// `face` as a function value.
    pub open spec fn face_fn(&self, is_play: bool) -> spec_fn(TriangleKey) -> Option<
        (Point, Point, Point, Color),
    > {
        |k: TriangleKey| self.face(k, is_play)
    }

    /// The shown triangles, each as its three corners and its colour, in the
    /// order of `triangle_keys`.
    pub fn triangles(&self, is_play: bool) -> (list: Vec<(Point, Point, Point, Color)>)
        requires
            self.wf(),
        ensures
            list@ == self.triangle_keys().filter_map(self.face_fn(is_play)),
    {
        let ghost keys = self.triangles.keys();
        let mut list: Vec<(Point, Point, Point, Color)> = Vec::new();
        let n = self.triangles.len();
        let mut i: usize = 0;
        proof {
            self.triangles.lemma_entries();
        }
        while i < n
            invariant
                0 <= i <= n,
                n == keys.len(),
                keys == self.triangles.keys(),
                self.wf(),
                list@ == keys.take(i as int).filter_map(self.face_fn(is_play)),
            decreases n - i,
        {
            let k = self.triangles.key_at(i);
            let t = self.triangles.value_at(i);
            proof {
                keys.lemma_filter_map_take_succ(self.face_fn(is_play), i as int);
                self.triangles.lemma_entries();
                assert(self.triangles.map()[keys[i as int]] == *t);
            }
            let in_solution = self.solution_edges.is_edge(k.0, k.1) && self.solution_edges.is_edge(
                k.0,
                k.2,
            ) && self.solution_edges.is_edge(k.1, k.2);
            let in_game = !is_play || (self.game_edges.is_edge(k.0, k.1)
                && self.game_edges.is_edge(k.0, k.2) && self.game_edges.is_edge(k.1, k.2));
            if in_solution && in_game {
                match self.vertices.get(&k.0) {
                    Some(a) => {
                        match self.vertices.get(&k.1) {
                            Some(b) => {
                                match self.vertices.get(&k.2) {
                                    Some(c) => {
                                        list.push((a.pos, b.pos, c.pos, t.color));
                                    },
                                    None => {},
                                }
                            },
                            None => {},
                        }
                    },
                    None => {},
                }
            }
            i += 1;
        }
        assert(keys.take(n as int) =~= keys);
        list
    }

    /// How far the player is: the number of triangles that are shown while
    /// playing, and the number of all triangles that can be shown.
    pub fn progress(&self) -> (ratio: (usize, usize))
        requires
            self.wf(),
        ensures
            ratio.0 == self.triangle_keys().filter_map(self.face_fn(true)).len(),
            ratio.1 == self.triangle_keys().filter_map(self.face_fn(false)).len(),
    {
        let n_sol = self.triangles(false).len();
        let n_game = self.triangles(true).len();
        (n_game, n_sol)
    }

    /// The corners of triangle `k` are stored, and `p` lies strictly inside
    /// the triangle.
    pub open spec fn covers(&self, k: TriangleKey, p: Point) -> bool {
        &&& self.vertex_map().dom().contains(k.0)
        &&& self.vertex_map().dom().contains(k.1)
        &&& self.vertex_map().dom().contains(k.2)
        &&& strictly_inside(
            p,
            self.vertex_map()[k.0].pos,
            self.vertex_map()[k.1].pos,
            self.vertex_map()[k.2].pos,
        )
    }

    /// `hit` is the first triangle in the order of `triangle_keys` that
    /// covers `p`, or `None` where no triangle covers it.
    pub open spec fn is_first_hit(&self, p: Point, hit: Option<TriangleKey>) -> bool {
        match hit {
            Some(k) => exists|i: int|
                0 <= i < self.triangle_keys().len() && #[trigger] self.triangle_keys()[i] == k
                    && self.covers(k, p) && forall|j: int|
                    0 <= j < i ==> !self.covers(#[trigger] self.triangle_keys()[j], p),
            None => forall|j: int|
                0 <= j < self.triangle_keys().len() ==> !self.covers(
                    #[trigger] self.triangle_keys()[j],
                    p,
                ),
        }
    }

    /// The first triangle that covers `p`, if there is one.
    pub open spec fn hit(&self, p: Point) -> Option<TriangleKey> {
        choose|hit: Option<TriangleKey>| self.is_first_hit(p, hit)
    }

    /// There is one first hit and no other.
    pub proof fn lemma_hit_unique(&self, p: Point, hit: Option<TriangleKey>)
        requires
            self.is_first_hit(p, hit),
        ensures
            self.hit(p) == hit,
    {
        let other = self.hit(p);
        assert(self.is_first_hit(p, other));
        match (hit, other) {
            (Some(k1), Some(k2)) => {
                let i1 = choose|i: int|
                    0 <= i < self.triangle_keys().len() && #[trigger] self.triangle_keys()[i] == k1
                        && self.covers(k1, p) && forall|j: int|
                        0 <= j < i ==> !self.covers(#[trigger] self.triangle_keys()[j], p);
                let i2 = choose|i: int|
                    0 <= i < self.triangle_keys().len() && #[trigger] self.triangle_keys()[i] == k2
                        && self.covers(k2, p) && forall|j: int|
                        0 <= j < i ==> !self.covers(#[trigger] self.triangle_keys()[j], p);
                if i1 < i2 {
                    assert(!self.covers(self.triangle_keys()[i1], p));
                } else if i2 < i1 {
                    assert(!self.covers(self.triangle_keys()[i2], p));
                }
            },
            (Some(k1), None) => {
                let i1 = choose|i: int|
                    0 <= i < self.triangle_keys().len() && #[trigger] self.triangle_keys()[i] == k1
                        && self.covers(k1, p) && forall|j: int|
                        0 <= j < i ==> !self.covers(#[trigger] self.triangle_keys()[j], p);
                assert(!self.covers(self.triangle_keys()[i1], p));
            },
            (None, Some(k2)) => {
                let i2 = choose|i: int|
                    0 <= i < self.triangle_keys().len() && #[trigger] self.triangle_keys()[i] == k2
                        && self.covers(k2, p) && forall|j: int|
                        0 <= j < i ==> !self.covers(#[trigger] self.triangle_keys()[j], p);
                assert(!self.covers(self.triangle_keys()[i2], p));
            },
            (None, None) => {},
        }
    }

    fn triangle_index_at(&self, p: Point) -> (found: Option<usize>)
        requires
            self.wf(),
        ensures
            match found {
                Some(i) => i < self.triangle_keys().len() && self.hit(p) == Some(
                    self.triangle_keys()[i as int],
                ),
                None => self.hit(p).is_none(),
            },
            self.is_first_hit(p, self.hit(p)),
    {
        let ghost keys = self.triangles.keys();
        let n = self.triangles.len();
        let mut i: usize = 0;
        while i < n
            invariant
                0 <= i <= n,
                n == keys.len(),
                keys == self.triangles.keys(),
                self.wf(),
                forall|j: int| 0 <= j < i ==> !self.covers(#[trigger] keys[j], p),
            decreases n - i,
        {
            let k = self.triangles.key_at(i);
            let mut inside = false;
            match self.vertices.get(&k.0) {
                Some(a) => {
                    match self.vertices.get(&k.1) {
                        Some(b) => {
                            match self.vertices.get(&k.2) {
                                Some(c) => {
                                    inside = point_in_triangle(p, a.pos, b.pos, c.pos);
                                },
                                None => {},
                            }
                        },
                        None => {},
                    }
                },
                None => {},
            }
            assert(inside == self.covers(k, p));
            if inside {
                proof {
                    assert(self.triangle_keys()[i as int] == k);
                    assert(self.is_first_hit(p, Some(k)));
                    self.lemma_hit_unique(p, Some(k));
                }
                return Some(i);
            }
            i += 1;
        }
        proof {
            assert(self.is_first_hit(p, None));
            self.lemma_hit_unique(p, None);
        }
        None
    }

    /// The first triangle, in the order of `triangle_keys`, whose corners are
    /// stored and that has `p` strictly inside.
    pub fn triangle_at(&self, p: Point) -> (found: Option<TriangleKey>)
        requires
            self.wf(),
        ensures
            found == self.hit(p),
            self.is_first_hit(p, found),
            found.is_some() ==> self.triangle_map().dom().contains(found.unwrap()),
    {
        proof {
            self.triangles.lemma_entries();
        }
        match self.triangle_index_at(p) {
            Some(i) => {
                let k = self.triangles.key_at(i);
                Some(k)
            },
            None => None,
        }
    }

    /// The triangle found by `triangle_at`, if there is one.
    pub fn get_triangle_at(&self, p: Point) -> (found: Option<&Triangle>)
        requires
            self.wf(),
        ensures
            match found {
                Some(t) => self.hit(p).is_some() && self.triangle_map().dom().contains(
                    self.hit(p).unwrap(),
                ) && *t == self.triangle_map()[self.hit(p).unwrap()],
                None => self.hit(p).is_none(),
            },
    {
        proof {
            self.triangles.lemma_entries();
        }
        match self.triangle_index_at(p) {
            Some(i) => Some(self.triangles.value_at(i)),
            None => None,
        }
    }

    /// Gives the triangle found by `triangle_at` the colour `color`. Nothing
    /// changes where no triangle covers `p`.
    pub fn set_triangle_color(&mut self, p: Point, color: Color)
        requires
            old(self).wf(),
        ensures
            final(self).wf(),
            final(self).same_graph(old(self)),
            final(self).triangle_keys() == old(self).triangle_keys(),
            final(self).triangle_map() == match old(self).hit(p) {
                Some(k) => old(self).triangle_map().insert(k, Triangle { color }),
                None => old(self).triangle_map(),
            },
    {
        proof {
            self.triangles.lemma_entries();
        }
        match self.triangle_index_at(p) {
            Some(i) => {
                self.triangles.set_value(i, Triangle::new(color));
            },
            None => {},
        }
    }

    /// Where each stored vertex lies.
    pub open spec fn positions(&self) -> Map<usize, Point> {
        Map::new(
            |id: usize| self.vertex_map().dom().contains(id),
            |id: usize| self.vertex_map()[id].pos,
        )
    }

    /// The positions of the vertices `ids`.
    pub open spec fn positions_of(&self, ids: Seq<usize>) -> Seq<Point> {
        Seq::new(ids.len(), |i: int| self.vertex_map()[ids[i]].pos)
    }

    /// Whether a vertex id is stored, as a function value.
    pub open spec fn stored_fn(&self) -> spec_fn(usize) -> bool {
        |id: usize| self.vertex_map().dom().contains(id)
    }

    /// The selected ids that are stored vertices, in the order of the
    /// selection.
    pub fn stored_of(&self, sel: &SelectedVertices) -> (ids: Vec<usize>)
        requires
            self.wf(),
        ensures
            ids@ == sel.order().filter(self.stored_fn()),
            forall|i: int| 0 <= i < ids@.len() ==> self.vertex_map().dom().contains(#[trigger] ids@[i]),
    {
        let ghost order = sel.order();
        let mut ids: Vec<usize> = Vec::new();
        let n = sel.len();
        let mut i: usize = 0;
        proof {
            reveal(Seq::filter);
            assert(order.take(0).filter(self.stored_fn()) =~= Seq::<usize>::empty());
        }
        while i < n
            invariant
                0 <= i <= n,
                n == order.len(),
                order == sel.order(),
                self.wf(),
                ids@ == order.take(i as int).filter(self.stored_fn()),
                forall|j: int|
                    0 <= j < ids@.len() ==> self.vertex_map().dom().contains(#[trigger] ids@[j]),
            decreases n - i,
        {
            let id = sel.get(i);
            proof {
                assert(order.take(i + 1) =~= order.take(i as int).push(id));
                Seq::lemma_filter_push(order.take(i as int), id, self.stored_fn());
            }
            if self.vertices.contains_key(&id) {
                ids.push(id);
            }
            i += 1;
        }
        assert(order.take(n as int) =~= order);
        ids
    }

    /// Adds the solution edge between `a` and `b` if they are two different
    /// stored vertices at most `MAX_EDGE_LENGTH` apart.
    fn commit_side(&mut self, a: usize, b: usize)
        requires
            old(self).wf_parts(),
        ensures
            final(self).wf_parts(),
            final(self).same_vertices(old(self)),
            final(self).same_game(old(self)),
            final(self).same_triangles(old(self)),
            forall|e: (usize, usize)|
                final(self).solution().contains(e) <==> old(self).solution().contains(e)
                    || side_gives(old(self).positions(), a, b, e),
            final(self).solution_order() == order_committed(
                old(self).solution_order(),
                old(self).positions(),
                a,
                b,
            ),
    {
        if a == b {
            return ;
        }
        let mut short = false;
        match self.vertices.get(&a) {
            Some(va) => {
                match self.vertices.get(&b) {
                    Some(vb) => {
                        short = va.pos.within(vb.pos, MAX_EDGE_LENGTH);
                    },
                    None => {},
                }
            },
            None => {},
        }
        if short {
            self.solution_edges.add_edge(a, b);
        }
    }

    /// Replaces the solution edges among the vertices `ids` by the sides of
    /// the triangles `tris`, which holds three positions of `ids` for each
    /// triangle, and recomputes the triangles. A side is added if its two
    /// ends are different stored vertices at most `MAX_EDGE_LENGTH` apart. A
    /// triple with a position outside `ids`, and what is left after the last
    /// whole triple, adds nothing.
    pub fn apply_triangulation(&mut self, ids: &Vec<usize>, tris: &Vec<usize>)
        requires
            old(self).wf(),
        ensures
            final(self).wf(),
            final(self).same_vertices(old(self)),
            final(self).same_game(old(self)),
            final(self).solution() == triangulated(
                old(self).solution(),
                ids@,
                old(self).positions(),
                tris@,
            ),
            final(self).solution_order() == triangulated_order(
                old(self).solution_order(),
                ids@,
                old(self).positions(),
                tris@,
            ),
            final(self).recomputed(old(self)),
    {
        let ghost start = *self;
        let ghost pos = self.positions();
        self.solution_edges.remove_between(ids);
        let ghost base = self.solution_edges@;
        let ghost base_order = self.solution_edges.order();
        let n = tris.len() / 3;
        let mut t: usize = 0;
        while t < n
            invariant
                0 <= t <= n,
                n == tris@.len() / 3,
                tris@.len() <= usize::MAX,
                self.wf_parts(),
                self.same_vertices(&start),
                self.same_game(&start),
                self.same_triangles(&start),
                self.positions() == pos,
                self.solution_order() == order_after_triples(
                    base_order,
                    ids@,
                    pos,
                    tris@,
                    t as nat,
                ),
                forall|e: (usize, usize)| #[trigger]
                    self.solution().contains(e) <==> base.contains(e) || given_before(
                        ids@,
                        pos,
                        tris@,
                        t as int,
                        e,
                    ),
            decreases n - t,
        {
            assert(3 * t + 2 < tris@.len());
            let i0 = tris[3 * t];
            let i1 = tris[3 * t + 1];
            let i2 = tris[3 * t + 2];
            let ghost before = self.solution();
            if i0 < ids.len() && i1 < ids.len() && i2 < ids.len() {
                let a = ids[i0];
                let b = ids[i1];
                let c = ids[i2];
                self.commit_side(a, b);
                self.commit_side(b, c);
                self.commit_side(a, c);
                assert forall|e: (usize, usize)| #[trigger]
                    self.solution().contains(e) <==> before.contains(e) || triple_gives(
                        ids@,
                        pos,
                        tris@,
                        t as int,
                        e,
                    ) by {}
            } else {
                assert forall|e: (usize, usize)|
                    !#[trigger] triple_gives(ids@, pos, tris@, t as int, e) by {}
            }
            proof {
                assert forall|e: (usize, usize)| #[trigger]
                    self.solution().contains(e) <==> base.contains(e) || given_before(
                        ids@,
                        pos,
                        tris@,
                        t + 1,
                        e,
                    ) by {
                    assert(before.contains(e) <==> base.contains(e) || given_before(
                        ids@,
                        pos,
                        tris@,
                        t as int,
                        e,
                    ));
                    assert(self.solution().contains(e) <==> before.contains(e) || triple_gives(
                        ids@,
                        pos,
                        tris@,
                        t as int,
                        e,
                    ));
                    if given_before(ids@, pos, tris@, t + 1, e) {
                        let w = choose|w: int|
                            0 <= w < t + 1 && #[trigger] triple_gives(ids@, pos, tris@, w, e);
                        if w < t {
                            assert(given_before(ids@, pos, tris@, t as int, e));
                        }
                    }
                    if given_before(ids@, pos, tris@, t as int, e) {
                        let w = choose|w: int|
                            0 <= w < t && #[trigger] triple_gives(ids@, pos, tris@, w, e);
                        assert(0 <= w < t + 1 && triple_gives(ids@, pos, tris@, w, e));
                    }
                    if triple_gives(ids@, pos, tris@, t as int, e) {
                        assert(0 <= t < t + 1 && triple_gives(ids@, pos, tris@, t as int, e));
                    }
                }
            }
            t += 1;
        }
        proof {
            assert forall|e: (usize, usize)|
                self.solution().contains(e) <==> triangulated(
                    start.solution(),
                    ids@,
                    pos,
                    tris@,
                ).contains(e) by {
                assert(self.solution().contains(e) <==> base.contains(e) || given_before(
                    ids@,
                    pos,
                    tris@,
                    n as int,
                    e,
                ));
                assert(base == without_inner(start.solution(), ids@.to_set()));
                if given_before(ids@, pos, tris@, tris@.len() as int, e) {
                    let w = choose|w: int|
                        0 <= w < tris@.len() && #[trigger] triple_gives(ids@, pos, tris@, w, e);
                    assert(w < n);
                    assert(given_before(ids@, pos, tris@, n as int, e));
                }
                if given_before(ids@, pos, tris@, n as int, e) {
                    let w = choose|w: int|
                        0 <= w < n && #[trigger] triple_gives(ids@, pos, tris@, w, e);
                    assert(0 <= w < tris@.len() && triple_gives(ids@, pos, tris@, w, e));
                }
            }
            assert(self.solution() =~= triangulated(start.solution(), ids@, pos, tris@));
        }
        self.update_triangles();
    }

    /// Triangulates the selected vertices that are stored: the solution
    /// edges among them are replaced by the sides of their Delaunay
    /// triangles that are at most `MAX_EDGE_LENGTH` long, and the triangles
    /// are recomputed. The vertices enter the triangulation in the order of
    /// the selection.
    pub fn triangulate(&mut self, sel: &SelectedVertices)
        requires
            old(self).wf(),
        ensures
            final(self).wf(),
            final(self).same_vertices(old(self)),
            final(self).same_game(old(self)),
            final(self).solution() == triangulated(
                old(self).solution(),
                sel.order().filter(old(self).stored_fn()),
                old(self).positions(),
                delaunay(
                    old(self).positions_of(sel.order().filter(old(self).stored_fn())),
                ),
            ),
            final(self).solution_order() == triangulated_order(
                old(self).solution_order(),
                sel.order().filter(old(self).stored_fn()),
                old(self).positions(),
                delaunay(
                    old(self).positions_of(sel.order().filter(old(self).stored_fn())),
                ),
            ),
            sel.order().filter(old(self).stored_fn()).len() < 3 ==> final(self).solution()
                == without_inner(
                old(self).solution(),
                sel.order().filter(old(self).stored_fn()).to_set(),
            ),
            final(self).recomputed(old(self)),
    {
        let ids = self.stored_of(sel);
        let mut points: Vec<Point> = Vec::new();
        let mut i: usize = 0;
        while i < ids.len()
            invariant
                0 <= i <= ids@.len(),
                self.wf(),
                forall|j: int|
                    0 <= j < ids@.len() ==> self.vertex_map().dom().contains(#[trigger] ids@[j]),
                points@ == self.positions_of(ids@.take(i as int)),
            decreases ids@.len() - i,
        {
            match self.vertices.get(&ids[i]) {
                Some(v) => {
                    points.push(v.pos);
                },
                None => {},
            }
            assert(points@ =~= self.positions_of(ids@.take(i + 1)));
            i += 1;
        }
        assert(ids@.take(i as int) =~= ids@);
        let tris = delaunay_triangles(&points);
        let ghost before = self.solution();
        self.apply_triangulation(&ids, &tris);
        proof {
            if ids@.len() < 3 {
                assert(tris@.len() == 0);
                assert forall|e: (usize, usize)|
                    !given_before(ids@, self.positions(), tris@, 0, e) by {}
                assert(self.solution() =~= without_inner(before, ids@.to_set()));
            }
        }
    }

    /// Gives each triangle the opaque colour of the centroid that `indices`
    /// assigns to it: the triangle at position `i` of `triangle_keys` gets
    /// centroid number `indices[i]`. A triangle without an index, or with an
    /// index that names no centroid, keeps its colour.
    pub fn apply_clustering(&mut self, centroids: &Vec<Rgb>, indices: &Vec<u8>)
        requires
            old(self).wf(),
        ensures
            final(self).wf(),
            final(self).same_graph(old(self)),
            final(self).triangle_keys() == old(self).triangle_keys(),
            final(self).triangle_map().dom() == old(self).triangle_map().dom(),
            final(self).triangle_colors() == requantized(
                old(self).triangle_colors(),
                centroids@,
                indices@,
            ),
    {
        let ghost start = *self;
        let ghost colors = self.triangle_colors();
        let n = self.triangles.len();
        let mut i: usize = 0;
        while i < n
            invariant
                0 <= i <= n,
                n == colors.len(),
                self.wf(),
                self.same_graph(&start),
                self.triangle_keys() == start.triangle_keys(),
                self.triangle_map().dom() == start.triangle_map().dom(),
                self.triangle_colors().len() == colors.len(),
                forall|j: int|
                    0 <= j < i ==> #[trigger] self.triangle_colors()[j] == requantized(
                        colors,
                        centroids@,
                        indices@,
                    )[j],
                forall|j: int| i <= j < n ==> #[trigger] self.triangle_colors()[j] == colors[j],
            decreases n - i,
        {
            if i < indices.len() {
                let cluster: usize = indices[i] as usize;
                if cluster < centroids.len() {
                    let c = centroids[cluster];
                    let ghost before = *self;
                    proof {
                        self.triangles.lemma_entries();
                    }
                    self.triangles.set_value(i, Triangle::new(Color::opaque(c.0, c.1, c.2)));
                    proof {
                        assert(self.triangle_map().dom() =~= before.triangle_map().dom());
                        assert(self.triangle_colors() =~= before.triangle_colors().update(
                            i as int,
                            opaque_of(c),
                        ));
                    }
                }
            }
            i += 1;
        }
        assert(self.triangle_colors() =~= requantized(colors, centroids@, indices@));
    }

    /// The colour of the triangle at position `i` of `triangle_keys`.
    pub fn triangle_color_at(&self, i: usize) -> (c: Color)
        requires
            i < self.triangle_keys().len(),
        ensures
            c == self.triangle_colors()[i as int],
    {
        let n = self.triangles.len();
        assert(i < n);
        self.triangles.value_at(i).color
    }

    /// The colours of the triangles without their opacity, in the order of
    /// `triangle_keys`.
    pub fn palette(&self) -> (rgb: Vec<Rgb>)
        ensures
            rgb@ == rgb_seq(self.triangle_colors()),
    {
        let mut rgb: Vec<Rgb> = Vec::new();
        let n = self.triangles.len();
        let mut i: usize = 0;
        while i < n
            invariant
                0 <= i <= n,
                n == self.triangles.vals().len(),
                n == self.triangles.keys().len(),
                rgb@.len() == i,
                forall|j: int| 0 <= j < i ==> #[trigger] rgb@[j] == rgb_of(self.triangle_colors()[j]),
            decreases n - i,
        {
            let c = self.triangles.value_at(i).color;
            rgb.push((c.red, c.green, c.blue));
            i += 1;
        }
        assert(rgb@ =~= rgb_seq(self.triangle_colors()));
        rgb
    }

    /// Reduces the colours of the triangles to `n_colors` colours: of `runs`
    /// k-means clusterings, seeded with `0`, `1` and so on, the first with
    /// the lowest score is kept, and every triangle gets the colour of the
    /// centroid of its cluster. Nothing changes where there is no triangle.
    /// Where `n_colors` is not zero and a clustering is kept, at most
    /// `n_colors` different colours are left.
    pub fn quantize_colors_with(
        &mut self,
        n_colors: u16,
        runs: u16,
        max_iter: usize,
        converge: (u16, i8),
    )
        requires
            old(self).wf(),
        ensures
            final(self).wf(),
            final(self).same_graph(old(self)),
            final(self).triangle_keys() == old(self).triangle_keys(),
            final(self).triangle_map().dom() == old(self).triangle_map().dom(),
            final(self).triangle_colors() == quantized(
                old(self).triangle_colors(),
                n_colors,
                runs,
                max_iter,
                converge,
            ),
            n_colors > 0 && some_run_kept(
                old(self).triangle_colors(),
                n_colors,
                runs,
                max_iter,
                converge,
            ) ==> few_colors(final(self).triangle_colors(), n_colors as int),
    {
        let rgb = self.palette();
        if rgb.len() == 0 {
            proof {
                assert(self.triangle_colors() =~= Seq::<Color>::empty());
                assert(self.triangle_colors().to_set() =~= Set::<Color>::empty());
            }
            return ;
        }
        let ghost before = self.triangle_colors();
        let ghost scores = run_scores(n_colors, runs, max_iter, converge, rgb@);
        let mut all: Vec<Clustering> = Vec::new();
        let mut seed: u16 = 0;
        while seed < runs
            invariant
                0 <= seed <= runs,
                rgb@.len() > 0,
                all@.len() == seed,
                forall|i: int|
                    0 <= i < seed ==> (
                    (#[trigger] all@[i]).score,
                    all@[i].centroids@,
                    all@[i].indices@,
                    ) == kmeans(n_colors, max_iter, converge, rgb@, i as u64),
                forall|i: int|
                    0 <= i < seed ==> clustered(
                        #[trigger] all@[i],
                        n_colors as int,
                        rgb@.len() as int,
                    ),
            decreases runs - seed,
        {
            all.push(kmeans_run(n_colors, max_iter, converge, &rgb, seed as u64));
            seed += 1;
        }
        let best = best_run(&all);
        proof {
            assert(scores_of(all@) =~= scores);
            let found = match best {
                Some(i) => Some(i as int),
                None => None,
            };
            let chosen = choose|b: Option<int>| is_best(scores, b);
            lemma_best_unique(scores, found, chosen);
        }
        match best {
            Some(i) => {
                proof {
                    if n_colors > 0 {
                        assert(clustered(all@[i as int], n_colors as int, rgb@.len() as int));
                        lemma_requantized_few(before, all@[i as int].centroids@, all@[i as int].indices@);
                    }
                }
                self.apply_clustering(&all[i].centroids, &all[i].indices);
            },
            None => {
                proof {
                    if some_run_kept(before, n_colors, runs, max_iter, converge) {
                        let w = choose|w: int|
                            0 <= w < runs && #[trigger] run_scores(
                                n_colors,
                                runs,
                                max_iter,
                                converge,
                                rgb_seq(before),
                            )[w] < WORST_SCORE;
                        assert(scores[w] >= WORST_SCORE);
                    }
                }
            },
        }
    }

    /// Reduces the colours of the triangles to `n_colors` colours, with
    /// `RUNS` clusterings of at most `MAX_ITERATIONS` iterations each.
    pub fn quantize_colors(&mut self, n_colors: u16)
        requires
            old(self).wf(),
        ensures
            final(self).wf(),
            final(self).same_graph(old(self)),
            final(self).triangle_keys() == old(self).triangle_keys(),
            final(self).triangle_map().dom() == old(self).triangle_map().dom(),
            final(self).triangle_colors() == quantized(
                old(self).triangle_colors(),
                n_colors,
                RUNS,
                MAX_ITERATIONS,
                CONVERGENCE,
            ),
            n_colors > 0 && some_run_kept(
                old(self).triangle_colors(),
                n_colors,
                RUNS,
                MAX_ITERATIONS,
                CONVERGENCE,
            ) ==> few_colors(final(self).triangle_colors(), n_colors as int),
    {
        self.quantize_colors_with(n_colors, RUNS, MAX_ITERATIONS, CONVERGENCE);
    }

    /// Stores the vertex `id` at `p`, in place of one that has this id
    /// already, and moves the next id past `id`.
    pub fn restore_vertex(&mut self, id: usize, p: Point)
        requires
            old(self).wf(),
            id < usize::MAX,
        ensures
            final(self).wf(),
            final(self).title_text() == old(self).title_text(),
            final(self).next_id() == if old(self).next_id() > id {
                old(self).next_id()
            } else {
                (id + 1) as usize
            },
            final(self).vertex_map() == old(self).vertex_map().insert(id, fresh_vertex(p)),
            final(self).vertex_ids() == if old(self).vertex_map().dom().contains(id) {
                old(self).vertex_ids()
            } else {
                old(self).vertex_ids().push(id)
            },
            final(self).same_solution(old(self)),
            final(self).same_game(old(self)),
            final(self).same_triangles(old(self)),
    {
        if self.next_vertex_id <= id {
            self.next_vertex_id = id + 1;
        }
        self.vertices.insert(id, Vertex::new(p));
    }

    /// Moves the next id up to `least` if it is below.
    pub fn advance_next_id(&mut self, least: usize)
        requires
            old(self).wf(),
        ensures
            final(self).wf(),
            final(self).next_id() == if old(self).next_id() < least {
                least
            } else {
                old(self).next_id()
            },
            final(self).title_text() == old(self).title_text(),
            final(self).vertex_map() == old(self).vertex_map(),
            final(self).vertex_ids() == old(self).vertex_ids(),
            final(self).same_solution(old(self)),
            final(self).same_game(old(self)),
            final(self).same_triangles(old(self)),
    {
        if self.next_vertex_id < least {
            self.next_vertex_id = least;
        }
    }

    /// The id that the next new vertex gets.
    pub fn next_vertex_id(&self) -> (id: usize)
        ensures
            id == self.next_id(),
    {
        self.next_vertex_id
    }

    /// Adds the solution edge between `a` and `b` if both are stored
    /// vertices. The triangles are left as they are.
    pub fn restore_edge(&mut self, a: usize, b: usize)
        requires
            old(self).wf(),
        ensures
            final(self).wf(),
            final(self).same_vertices(old(self)),
            final(self).same_game(old(self)),
            final(self).same_triangles(old(self)),
            final(self).solution() == if old(self).vertex_map().dom().contains(a) && old(
                self,
            ).vertex_map().dom().contains(b) {
                with_edge(old(self).solution(), a, b)
            } else {
                old(self).solution()
            },
            final(self).solution_order() == if old(self).vertex_map().dom().contains(a) && old(
                self,
            ).vertex_map().dom().contains(b) {
                order_with(old(self).solution_order(), a, b)
            } else {
                old(self).solution_order()
            },
    {
        if self.vertices.contains_key(&a) && self.vertices.contains_key(&b) {
            self.solution_edges.add_edge(a, b);
        }
    }

    /// Stores the triangle with the corners `a`, `b` and `c` and the colour
    /// `color`, in place of one that has these corners already, if its three
    /// sides are solution edges.
    pub fn restore_triangle(&mut self, a: usize, b: usize, c: usize, color: Color)
        requires
            old(self).wf(),
        ensures
            final(self).wf(),
            final(self).same_graph(old(self)),
            final(self).triangle_map() == if closed_in(old(self).solution(), sorted_key(a, b, c)) {
                old(self).triangle_map().insert(sorted_key(a, b, c), Triangle { color })
            } else {
                old(self).triangle_map()
            },
            final(self).triangle_keys() == if closed_in(old(self).solution(), sorted_key(a, b, c))
                && !old(self).triangle_map().dom().contains(sorted_key(a, b, c)) {
                old(self).triangle_keys().push(sorted_key(a, b, c))
            } else {
                old(self).triangle_keys()
            },
    {
        let k = triangle_key(a, b, c);
        if k.0 < k.1 && k.1 < k.2 && self.solution_edges.is_edge(k.0, k.1)
            && self.solution_edges.is_edge(k.1, k.2) && self.solution_edges.is_edge(k.0, k.2) {
            self.triangles.insert(k, Triangle::new(color));
        }
    }

    /// Puts `edges` in place of the edges that the player has drawn.
    pub fn restore_game(&mut self, edges: &Edges)
        requires
            old(self).wf(),
            edges.wf(),
        ensures
            final(self).wf(),
            final(self).same_vertices(old(self)),
            final(self).same_solution(old(self)),
            final(self).same_triangles(old(self)),
            final(self).game() == edges@,
            final(self).game_order() == edges.order(),
    {
        self.game_edges = edges.clone();
    }

    /// A copy of the edges that the player has drawn.
    pub fn game_edge_set(&self) -> (edges: Edges)
        requires
            self.wf(),
        ensures
            edges.wf(),
            edges@ == self.game(),
            edges.order() == self.game_order(),
    {
        self.game_edges.clone()
    }

    /// Whether there is no solution edge.
    pub fn has_no_solution(&self) -> (b: bool)
        requires
            self.wf(),
        ensures
            b == (self.solution() == Set::<(usize, usize)>::empty()),
    {
        proof {
            self.solution_edges.lemma_order();
            if self.solution_edges.order().len() == 0 {
                assert(self.solution() =~= Set::<(usize, usize)>::empty());
            } else {
                assert(self.solution().contains(self.solution_edges.order()[0]));
            }
        }
        self.solution_edges.is_empty()
    }

    /// A solution edge at vertex `id` that the player has drawn.
    pub open spec fn drawn_at_fn(&self, id: usize) -> spec_fn((usize, usize)) -> bool {
        |e: (usize, usize)| touches(e, id) && self.game().contains(e)
    }

    /// A solution edge at vertex `id` that the player has not drawn.
    pub open spec fn hidden_at_fn(&self, id: usize) -> spec_fn((usize, usize)) -> bool {
        |e: (usize, usize)| touches(e, id) && !self.game().contains(e)
    }

    /// Vertex `v` with its two counters set for the id `id`: the number of
    /// solution edges at the vertex that the player has drawn, and the number
    /// of those that the player has not drawn.
    pub open spec fn counted(&self, id: usize, v: Vertex) -> Vertex {
        Vertex {
            pos: v.pos,
            visible_count: self.solution_order().filter(self.drawn_at_fn(id)).len() as usize,
            invisible_count: self.solution_order().filter(self.hidden_at_fn(id)).len() as usize,
        }
    }

    /// Counts, for every stored vertex anew, the solution edges at it that
    /// the player has drawn and those that the player has not drawn.
    pub fn step(&mut self)
        requires
            old(self).wf(),
        ensures
            final(self).wf(),
            final(self).title_text() == old(self).title_text(),
            final(self).next_id() == old(self).next_id(),
            final(self).vertex_ids() == old(self).vertex_ids(),
            final(self).vertex_map().dom() == old(self).vertex_map().dom(),
            forall|id: usize| #[trigger]
                final(self).vertex_map().dom().contains(id) ==> final(self).vertex_map()[id]
                    == old(self).counted(id, old(self).vertex_map()[id]),
            final(self).same_solution(old(self)),
            final(self).same_game(old(self)),
            final(self).same_triangles(old(self)),
    {
        let ghost start = *self;
        let ghost ids = self.vertices.keys();
        let ghost order = self.solution_edges.order();
        let n = self.vertices.len();
        let m = self.solution_edges.len();
        proof {
            self.vertices.lemma_entries();
            self.solution_edges.lemma_order();
        }
        let mut vi: usize = 0;
        while vi < n
            invariant
                0 <= vi <= n,
                n == ids.len(),
                m == order.len(),
                start.wf(),
                self.wf(),
                self.vertices.keys() == ids,
                ids == start.vertices.keys(),
                ids.no_duplicates(),
                order == start.solution_order(),
                self.title_text() == start.title_text(),
                self.next_id() == start.next_id(),
                self.same_solution(&start),
                self.same_game(&start),
                self.same_triangles(&start),
                self.vertex_map().dom() == start.vertex_map().dom(),
                forall|k: int|
                    0 <= k < vi ==> self.vertex_map()[#[trigger] ids[k]] == start.counted(
                        ids[k],
                        start.vertex_map()[ids[k]],
                    ),
                forall|k: int|
                    vi <= k < n ==> self.vertex_map()[#[trigger] ids[k]] == start.vertex_map()[ids[k]],
                forall|e: (usize, usize)| #[trigger] start.solution().contains(e) ==> e.0 < e.1,
                order.to_set() == start.solution(),
            decreases n - vi,
        {
            let id = self.vertices.key_at(vi);
            let pos = self.vertices.value_at(vi).pos;
            let ghost drawn = start.drawn_at_fn(id);
            let ghost hidden = start.hidden_at_fn(id);
            let mut visible: usize = 0;
            let mut invisible: usize = 0;
            let mut j: usize = 0;
            proof {
                self.vertices.lemma_entries();
                reveal(Seq::filter);
                assert(order.take(0).filter(drawn).len() == 0);
                assert(order.take(0).filter(hidden).len() == 0);
            }
            while j < m
                invariant
                    0 <= j <= m,
                    m == order.len(),
                    self.wf(),
                    order == self.solution_edges.order(),
                    self.same_game(&start),
                    drawn == start.drawn_at_fn(id),
                    hidden == start.hidden_at_fn(id),
                    visible == order.take(j as int).filter(drawn).len(),
                    invisible == order.take(j as int).filter(hidden).len(),
                    visible + invisible <= j,
                    forall|e: (usize, usize)| #[trigger] start.solution().contains(e) ==> e.0 < e.1,
                    order.to_set() == start.solution(),
                decreases m - j,
            {
                let e = self.solution_edges.get(j);
                proof {
                    assert(order.take(j + 1) =~= order.take(j as int).push(e));
                    Seq::lemma_filter_len_push(order.take(j as int), drawn, e);
                    Seq::lemma_filter_len_push(order.take(j as int), hidden, e);
                    assert(order.contains(order[j as int]));
                    assert(start.solution().contains(e));
                }
                if e.0 == id || e.1 == id {
                    if self.game_edges.is_edge(e.0, e.1) {
                        visible += 1;
                    } else {
                        invisible += 1;
                    }
                }
                j += 1;
            }
            proof {
                assert(order.take(m as int) =~= order);
            }
            let ghost before = *self;
            self.vertices.set_value(vi, Vertex { pos, visible_count: visible, invisible_count: invisible });
            proof {
                assert(self.vertex_map().dom() =~= before.vertex_map().dom());
                assert forall|k: int| 0 <= k < vi + 1 implies self.vertex_map()[#[trigger] ids[k]]
                    == start.counted(ids[k], start.vertex_map()[ids[k]]) by {
                    if k < vi {
                        assert(ids[k] != ids[vi as int]);
                    }
                }
                assert forall|k: int| vi + 1 <= k < n implies self.vertex_map()[#[trigger] ids[k]]
                    == start.vertex_map()[ids[k]] by {
                    assert(ids[k] != ids[vi as int]);
                }
            }
            vi += 1;
        }
        proof {
            self.vertices.lemma_entries();
            assert forall|id: usize| #[trigger]
                self.vertex_map().dom().contains(id) implies self.vertex_map()[id] == start.counted(
                id,
                start.vertex_map()[id],
            ) by {
                let k = ids.index_of(id);
                assert(ids[k] == id);
            }
        }
    }
}

impl Default for Puzzle {
    /// A puzzle without title, vertices, edges or triangles.
    fn default() -> (p: Puzzle)
        ensures
            p.wf(),
            p.title_text() == Seq::<char>::empty(),
            p.next_id() == 0,
            p.vertex_map() == Map::<usize, Vertex>::empty(),
            p.solution() == Set::<(usize, usize)>::empty(),
            p.game() == Set::<(usize, usize)>::empty(),
            p.triangle_map() == Map::<TriangleKey, Triangle>::empty(),
    {
        Puzzle::empty(String::new())
    }
}

} // verus!
