//! The stored form of a puzzle, and the way to a puzzle and back.

use vstd::prelude::*;
use crate::color::Color;
use crate::edge::spec_normalize;
use crate::geometry::Point;
use crate::network::VertexError;
use crate::puzzle::Puzzle;
use crate::seq_facts::{holds_last, lemma_holds_last_push};
use crate::triangle::{closed_in, sorted_key, Triangle, TriangleKey};
use crate::vertex::{fresh_vertex, Vertex};

verus! {

/// A picture that was laid under the puzzle while it was drawn.
pub struct ReferenceImage {
    pub path: String,
    pub pos: Point,
}

/// What a puzzle file holds.
pub struct PuzzleFileStorage {
    pub title: String,
    pub vertices: Vec<(usize, Point)>,
    pub edges: Vec<(usize, usize)>,
    pub triangles: Vec<(usize, usize, usize, Color)>,
    pub reference_images: Vec<ReferenceImage>,
}

/// The vertices of a file as entries of the vertex map.
pub open spec fn vertex_entries(vs: Seq<(usize, Point)>) -> Seq<(usize, Vertex)> {
    Seq::new(vs.len(), |i: int| (vs[i].0, fresh_vertex(vs[i].1)))
}

/// The edge that the pair `e` of a file gives: none if it joins a vertex to
/// itself or has an end that is not stored.
pub open spec fn file_edge(e: (usize, usize), stored: Set<usize>) -> Option<(usize, usize)> {
    if e.0 != e.1 && stored.contains(e.0) && stored.contains(e.1) {
        Some(spec_normalize(e.0, e.1))
    } else {
        None
    }
}

/// The edges that the pairs of a file give.
pub open spec fn file_edges(es: Seq<(usize, usize)>, stored: Set<usize>) -> Set<(usize, usize)> {
    Set::new(
        |e: (usize, usize)|
            exists|i: int| 0 <= i < es.len() && file_edge(#[trigger] es[i], stored) == Some(e),
    )
}

/// The triangle that the entry `t` of a file gives: none unless its three
/// sides are among `edges`.
pub open spec fn file_triangle(t: (usize, usize, usize, Color), edges: Set<(usize, usize)>) -> Option<
    (TriangleKey, Triangle),
> {
    if closed_in(edges, sorted_key(t.0, t.1, t.2)) {
        Some((sorted_key(t.0, t.1, t.2), Triangle { color: t.3 }))
    } else {
        None
    }
}

/// `file_triangle` as a function value.
pub open spec fn file_triangle_fn(edges: Set<(usize, usize)>) -> spec_fn(
    (usize, usize, usize, Color),
) -> Option<(TriangleKey, Triangle)> {
    |t: (usize, usize, usize, Color)| file_triangle(t, edges)
}

/// `next` is one more than the largest id of `vs`, and 1 where there is
/// none.
pub open spec fn follows_ids(vs: Seq<(usize, Point)>, next: usize) -> bool {
    &&& forall|i: int| 0 <= i < vs.len() ==> (#[trigger] vs[i]).0 < next
    &&& next == 1 || exists|i: int| 0 <= i < vs.len() && (#[trigger] vs[i]).0 + 1 == next
}

/// `puzzle` is what the file `value` holds:
/// - the title and the vertices, of two with one id the later;
/// - the edges whose two ends are different vertices of the file;
/// - the triangles whose three sides are such edges, of two with the same
///   corners the later;
/// - no edge that the player has drawn.
pub open spec fn loaded(value: &PuzzleFileStorage, puzzle: &Puzzle) -> bool {
    &&& puzzle.title_text() == value.title@
    &&& holds_last(vertex_entries(value.vertices@), puzzle.vertex_map())
    &&& follows_ids(value.vertices@, puzzle.next_id())
    &&& puzzle.solution() == file_edges(value.edges@, puzzle.vertex_map().dom())
    &&& puzzle.game() == Set::<(usize, usize)>::empty()
    &&& holds_last(
        value.triangles@.filter_map(file_triangle_fn(puzzle.solution())),
        puzzle.triangle_map(),
    )
}

/// `repr` is the file that holds `puzzle`: title, vertices, solution edges
/// and triangles, each list in the order of the puzzle.
pub open spec fn saved(puzzle: &Puzzle, repr: &PuzzleFileStorage) -> bool {
    &&& repr.title@ == puzzle.title_text()
    &&& repr.vertices@.len() == puzzle.vertex_ids().len()
    &&& forall|i: int|
        0 <= i < repr.vertices@.len() ==> (#[trigger] repr.vertices@[i]).0 == puzzle.vertex_ids()[i]
            && repr.vertices@[i].1 == puzzle.vertex_map()[puzzle.vertex_ids()[i]].pos
    &&& repr.edges@ == puzzle.solution_order()
    &&& repr.triangles@.len() == puzzle.triangle_keys().len()
    &&& forall|i: int|
        0 <= i < repr.triangles@.len() ==> {
            let t = #[trigger] repr.triangles@[i];
            (t.0, t.1, t.2) == puzzle.triangle_keys()[i] && t.3 == puzzle.triangle_colors()[i]
        }
}

proof fn lemma_filter_map_total<A, B>(s: Seq<A>, f: spec_fn(A) -> Option<B>)
    requires
        forall|i: int| 0 <= i < s.len() ==> (#[trigger] f(s[i])).is_some(),
    ensures
        s.filter_map(f).len() == s.len(),
        forall|i: int| 0 <= i < s.len() ==> #[trigger] s.filter_map(f)[i] == f(s[i]).unwrap(),
    decreases s.len(),
{
    if s.len() > 0 {
        let rest = s.drop_last();
        assert forall|i: int| 0 <= i < rest.len() implies (#[trigger] f(rest[i])).is_some() by {
            assert(rest[i] == s[i]);
        }
        lemma_filter_map_total(rest, f);
        assert(f(s.last()).is_some());
        assert forall|i: int| 0 <= i < s.len() implies #[trigger] s.filter_map(f)[i] == f(
            s[i],
        ).unwrap() by {
            if i < rest.len() {
                assert(rest[i] == s[i]);
                assert(s.filter_map(f)[i] == rest.filter_map(f)[i]);
            }
        }
    }
}

/// Saving a puzzle that was loaded and loading the saved file gives the same
/// vertices, the same solution edges and the same triangles again: a file
/// and what is saved of it hold the same puzzle.
pub proof fn lemma_round_trip(
    file: PuzzleFileStorage,
    puzzle: Puzzle,
    again: PuzzleFileStorage,
    reloaded: Puzzle,
)
    requires
        puzzle.wf(),
        loaded(&file, &puzzle),
        saved(&puzzle, &again),
        loaded(&again, &reloaded),
    ensures
        reloaded.title_text() == puzzle.title_text(),
        reloaded.vertex_map() == puzzle.vertex_map(),
        reloaded.solution() == puzzle.solution(),
        reloaded.triangle_map() == puzzle.triangle_map(),
{
    puzzle.lemma_wf();
    let ids = puzzle.vertex_ids();
    let vmap = puzzle.vertex_map();
    // the vertices
    let ventries = vertex_entries(again.vertices@);
    assert forall|id: usize| #[trigger] vmap.dom().contains(id) implies vmap[id] == fresh_vertex(
        vmap[id].pos,
    ) by {
        crate::seq_facts::lemma_last_index(vertex_entries(file.vertices@), id);
        let i = choose|i: int|
            0 <= i < vertex_entries(file.vertices@).len() && (#[trigger] vertex_entries(
                file.vertices@,
            )[i]).0 == id && crate::seq_facts::is_last_of_key(vertex_entries(file.vertices@), i);
        assert(vmap[vertex_entries(file.vertices@)[i].0] == vertex_entries(file.vertices@)[i].1);
    }
    assert(holds_last(ventries, vmap)) by {
        assert forall|k: usize| #[trigger]
            vmap.dom().contains(k) <==> exists|i: int|
                0 <= i < ventries.len() && (#[trigger] ventries[i]).0 == k by {
            if vmap.dom().contains(k) {
                assert(ids.to_set().contains(k));
                let i = choose|i: int| 0 <= i < ids.len() && ids[i] == k;
                assert(ventries[i].0 == k);
            }
            if exists|i: int| 0 <= i < ventries.len() && (#[trigger] ventries[i]).0 == k {
                let i = choose|i: int| 0 <= i < ventries.len() && (#[trigger] ventries[i]).0 == k;
                assert(ids[i] == k);
                assert(ids.contains(k));
            }
        }
        assert forall|i: int|
            0 <= i < ventries.len() && crate::seq_facts::is_last_of_key(
                ventries,
                i,
            ) implies vmap[(#[trigger] ventries[i]).0] == ventries[i].1 by {
            assert(ids.contains(ids[i]));
            assert(vmap.dom().contains(ids[i]));
        }
    }
    crate::seq_facts::lemma_holds_last_unique(ventries, vmap, reloaded.vertex_map());
    // the edges
    let stored = vmap.dom();
    let order = puzzle.solution_order();
    assert forall|e: (usize, usize)|
        puzzle.solution().contains(e) <==> file_edges(order, stored).contains(e) by {
        if puzzle.solution().contains(e) {
            let k = choose|k: int|
                0 <= k < file.edges@.len() && file_edge(#[trigger] file.edges@[k], stored) == Some(
                    e,
                );
            assert(file_edge(e, stored) == Some(e));
            assert(order.to_set().contains(e));
            let i = choose|i: int| 0 <= i < order.len() && order[i] == e;
            assert(file_edge(order[i], stored) == Some(e));
        }
        if file_edges(order, stored).contains(e) {
            let i = choose|i: int|
                0 <= i < order.len() && file_edge(#[trigger] order[i], stored) == Some(e);
            assert(order.contains(order[i]));
            assert(puzzle.solution().contains(order[i]));
        }
    }
    assert(puzzle.solution() =~= file_edges(order, stored));
    // the triangles
    let edges = puzzle.solution();
    let keys = puzzle.triangle_keys();
    let tmap = puzzle.triangle_map();
    let f = file_triangle_fn(edges);
    let ts = again.triangles@;
    assert forall|i: int| 0 <= i < ts.len() implies (#[trigger] f(ts[i])).is_some() && f(ts[i])
        == Some((keys[i], tmap[keys[i]])) by {
        let t = ts[i];
        assert((t.0, t.1, t.2) == keys[i]);
        assert(keys.contains(keys[i]));
        assert(tmap.dom().contains(keys[i]));
        assert(closed_in(edges, keys[i]));
        assert(sorted_key(t.0, t.1, t.2) == keys[i]);
        assert(tmap[keys[i]].color == puzzle.triangle_colors()[i]);
    }
    lemma_filter_map_total(ts, f);
    let tentries = ts.filter_map(f);
    assert(holds_last(tentries, tmap)) by {
        assert forall|k: TriangleKey| #[trigger]
            tmap.dom().contains(k) <==> exists|i: int|
                0 <= i < tentries.len() && (#[trigger] tentries[i]).0 == k by {
            if tmap.dom().contains(k) {
                assert(keys.to_set().contains(k));
                let i = choose|i: int| 0 <= i < keys.len() && keys[i] == k;
                assert(tentries[i] == f(ts[i]).unwrap());
                assert(tentries[i].0 == k);
            }
            if exists|i: int| 0 <= i < tentries.len() && (#[trigger] tentries[i]).0 == k {
                let i = choose|i: int| 0 <= i < tentries.len() && (#[trigger] tentries[i]).0 == k;
                assert(tentries[i] == f(ts[i]).unwrap());
                assert(keys.contains(keys[i]));
            }
        }
        assert forall|i: int|
            0 <= i < tentries.len() && crate::seq_facts::is_last_of_key(
                tentries,
                i,
            ) implies tmap[(#[trigger] tentries[i]).0] == tentries[i].1 by {
            assert(tentries[i] == f(ts[i]).unwrap());
        }
    }
    crate::seq_facts::lemma_holds_last_unique(tentries, tmap, reloaded.triangle_map());
}

/// Whether no vertex of the file has the largest id there is, after which
/// no next id could follow.
fn ids_in_range(vs: &Vec<(usize, Point)>) -> (ok: bool)
    ensures
        ok == forall|i: int| 0 <= i < vs@.len() ==> (#[trigger] vs@[i]).0 < usize::MAX,
{
    let mut i: usize = 0;
    while i < vs.len()
        invariant
            0 <= i <= vs@.len(),
            forall|j: int| 0 <= j < i ==> (#[trigger] vs@[j]).0 < usize::MAX,
        decreases vs@.len() - i,
    {
        if vs[i].0 == usize::MAX {
            return false;
        }
        i += 1;
    }
    true
}

/// The puzzle that a file holds, with the reference images of the file. An
/// edge or a triangle that names a vertex which the file does not hold is
/// left out. A file with a vertex of the largest id there is fails to load:
/// no next id could follow that vertex.
pub fn repr_to_puzzle(value: PuzzleFileStorage) -> (r: Result<
    (Puzzle, Vec<ReferenceImage>),
    VertexError,
>)
    ensures
        match r {
            Ok((puzzle, images)) => {
                &&& forall|i: int|
                    0 <= i < value.vertices@.len() ==> (#[trigger] value.vertices@[i]).0
                        < usize::MAX
                &&& puzzle.wf()
                &&& loaded(&value, &puzzle)
                &&& images == value.reference_images
            },
            Err(e) => {
                &&& exists|i: int|
                    0 <= i < value.vertices@.len() && (#[trigger] value.vertices@[i]).0
                        == usize::MAX
                &&& e is Str
            },
        },
{
    if !ids_in_range(&value.vertices) {
        return Err(VertexError::Str("Vertex id out of range".to_string()));
    }
    let ghost vs = value.vertices@;
    let ghost es = value.edges@;
    let ghost ts = value.triangles@;
    let mut puzzle = Puzzle::empty(value.title);
    let mut i: usize = 0;
    proof {
        lemma_holds_last_push(vertex_entries(vs).take(0), puzzle.vertex_map(), 0, fresh_vertex(Point { x: 0, y: 0 }));
        assert(vertex_entries(vs).take(0) =~= Seq::<(usize, Vertex)>::empty());
    }
    while i < value.vertices.len()
        invariant
            0 <= i <= vs.len(),
            vs == value.vertices@,
            forall|j: int| 0 <= j < vs.len() ==> (#[trigger] vs[j]).0 < usize::MAX,
            puzzle.wf(),
            puzzle.title_text() == value.title@,
            holds_last(vertex_entries(vs).take(i as int), puzzle.vertex_map()),
            forall|j: int| 0 <= j < i ==> (#[trigger] vs[j]).0 < puzzle.next_id(),
            puzzle.next_id() == 0 || exists|j: int|
                0 <= j < i && (#[trigger] vs[j]).0 + 1 == puzzle.next_id(),
            puzzle.solution() == Set::<(usize, usize)>::empty(),
            puzzle.game() == Set::<(usize, usize)>::empty(),
            puzzle.triangle_map() == Map::<TriangleKey, Triangle>::empty(),
        decreases vs.len() - i,
    {
        let (id, p) = value.vertices[i];
        let ghost before = puzzle;
        proof {
            lemma_holds_last_push(
                vertex_entries(vs).take(i as int),
                puzzle.vertex_map(),
                id,
                fresh_vertex(p),
            );
            assert(vertex_entries(vs).take(i + 1) =~= vertex_entries(vs).take(i as int).push(
                (id, fresh_vertex(p)),
            ));
        }
        puzzle.restore_vertex(id, p);
        proof {
            if before.next_id() > id {
                let j = choose|j: int| 0 <= j < i && (#[trigger] vs[j]).0 + 1 == before.next_id();
                assert(0 <= j < i + 1 && vs[j].0 + 1 == puzzle.next_id());
            } else {
                assert(0 <= i < i + 1 && vs[i as int].0 + 1 == puzzle.next_id());
            }
        }
        i += 1;
    }
    puzzle.advance_next_id(1);
    proof {
        assert(vertex_entries(vs).take(i as int) =~= vertex_entries(vs));
    }
    let ghost stored = puzzle.vertex_map().dom();
    let mut j: usize = 0;
    while j < value.edges.len()
        invariant
            0 <= j <= es.len(),
            es == value.edges@,
            vs == value.vertices@,
            puzzle.wf(),
            puzzle.title_text() == value.title@,
            holds_last(vertex_entries(vs), puzzle.vertex_map()),
            follows_ids(vs, puzzle.next_id()),
            puzzle.vertex_map().dom() == stored,
            forall|e: (usize, usize)| #[trigger]
                puzzle.solution().contains(e) <==> exists|k: int|
                    0 <= k < j && file_edge(#[trigger] es[k], stored) == Some(e),
            puzzle.game() == Set::<(usize, usize)>::empty(),
            puzzle.triangle_map() == Map::<TriangleKey, Triangle>::empty(),
        decreases es.len() - j,
    {
        let (a, b) = value.edges[j];
        let ghost before = puzzle.solution();
        puzzle.restore_edge(a, b);
        proof {
            assert forall|e: (usize, usize)| #[trigger]
                puzzle.solution().contains(e) <==> exists|k: int|
                    0 <= k < j + 1 && file_edge(#[trigger] es[k], stored) == Some(e) by {
                assert(puzzle.solution().contains(e) <==> before.contains(e) || file_edge(
                    es[j as int],
                    stored,
                ) == Some(e));
                if before.contains(e) {
                    let k = choose|k: int|
                        0 <= k < j && file_edge(#[trigger] es[k], stored) == Some(e);
                    assert(0 <= k < j + 1 && file_edge(es[k], stored) == Some(e));
                }
                if exists|k: int|
                    0 <= k < j + 1 && file_edge(#[trigger] es[k], stored) == Some(e) {
                    let k = choose|k: int|
                        0 <= k < j + 1 && file_edge(#[trigger] es[k], stored) == Some(e);
                    if k < j {
                        assert(before.contains(e));
                    }
                }
            }
        }
        j += 1;
    }
    proof {
        assert(puzzle.solution() =~= file_edges(es, stored));
    }
    let ghost edges = puzzle.solution();
    let mut t: usize = 0;
    proof {
        lemma_holds_last_push(
            Seq::<(TriangleKey, Triangle)>::empty(),
            Map::<TriangleKey, Triangle>::empty(),
            (0, 0, 0),
            Triangle { color: Color { red: 0, green: 0, blue: 0, alpha: 0 } },
        );
        assert(ts.take(0) =~= Seq::<(usize, usize, usize, Color)>::empty());
    }
    while t < value.triangles.len()
        invariant
            0 <= t <= ts.len(),
            ts == value.triangles@,
            vs == value.vertices@,
            es == value.edges@,
            puzzle.wf(),
            puzzle.title_text() == value.title@,
            holds_last(vertex_entries(vs), puzzle.vertex_map()),
            follows_ids(vs, puzzle.next_id()),
            puzzle.vertex_map().dom() == stored,
            puzzle.solution() == edges,
            edges == file_edges(es, stored),
            puzzle.game() == Set::<(usize, usize)>::empty(),
            holds_last(ts.take(t as int).filter_map(file_triangle_fn(edges)), puzzle.triangle_map()),
        decreases ts.len() - t,
    {
        let (a, b, c, color) = value.triangles[t];
        proof {
            ts.lemma_filter_map_take_succ(file_triangle_fn(edges), t as int);
            if closed_in(edges, sorted_key(a, b, c)) {
                lemma_holds_last_push(
                    ts.take(t as int).filter_map(file_triangle_fn(edges)),
                    puzzle.triangle_map(),
                    sorted_key(a, b, c),
                    Triangle { color },
                );
                assert(ts.take(t as int).filter_map(file_triangle_fn(edges)) + seq![
                    (sorted_key(a, b, c), Triangle { color }),
                ] =~= ts.take(t as int).filter_map(file_triangle_fn(edges)).push(
                    (sorted_key(a, b, c), Triangle { color }),
                ));
            } else {
                assert(ts.take(t as int).filter_map(file_triangle_fn(edges)) + Seq::<
                    (TriangleKey, Triangle),
                >::empty() =~= ts.take(t as int).filter_map(file_triangle_fn(edges)));
            }
        }
        puzzle.restore_triangle(a, b, c, color);
        t += 1;
    }
    proof {
        assert(ts.take(t as int) =~= ts);
    }
    Ok((puzzle, value.reference_images))
}

/// The file that holds `puzzle`: title, vertices, solution edges and
/// triangles, each list in the order of the puzzle, and the given reference
/// images.
pub fn puzzle_to_repr(value: &Puzzle, images: Vec<ReferenceImage>) -> (repr: PuzzleFileStorage)
    requires
        value.wf(),
    ensures
        saved(value, &repr),
        repr.reference_images == images,
{
    let listed = value.vertices();
    let mut vertices: Vec<(usize, Point)> = Vec::new();
    let mut i: usize = 0;
    while i < listed.len()
        invariant
            0 <= i <= listed@.len(),
            vertices@.len() == i,
            forall|j: int|
                0 <= j < i ==> (#[trigger] vertices@[j]).0 == listed@[j].0 && vertices@[j].1
                    == listed@[j].1.pos,
        decreases listed@.len() - i,
    {
        vertices.push((listed[i].0, listed[i].1.pos));
        i += 1;
    }
    let keys = value.triangle_keys_vec();
    proof {
        value.lemma_wf();
    }
    let mut triangles: Vec<(usize, usize, usize, Color)> = Vec::new();
    let mut t: usize = 0;
    while t < keys.len()
        invariant
            0 <= t <= keys@.len(),
            keys@ == value.triangle_keys(),
            value.triangle_colors().len() == keys@.len(),
            triangles@.len() == t,
            value.wf(),
            forall|j: int|
                0 <= j < t ==> {
                    let x = #[trigger] triangles@[j];
                    (x.0, x.1, x.2) == keys@[j] && x.3 == value.triangle_colors()[j]
                },
        decreases keys@.len() - t,
    {
        let k = keys[t];
        let color = value.triangle_color_at(t);
        triangles.push((k.0, k.1, k.2, color));
        t += 1;
    }
    PuzzleFileStorage {
        title: value.title().to_string(),
        vertices,
        edges: value.solution_pairs(),
        triangles,
        reference_images: images,
    }
}

} // verus!
