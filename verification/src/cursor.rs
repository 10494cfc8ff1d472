//! The pointer and the set of vertices that it has selected.

use vstd::prelude::*;
use crate::edge::has_id;
use crate::geometry::{dist_sq, Point};
use crate::grid::{
    cell_of, edge_cell, edge_midpoint, grids_in_radius, lemma_query_covers_disc, vertex_cell, Cell,
    SpatialLookup,
};
use crate::messages::{DeleteEdge, DeleteVertex, ToggleEdge};
use crate::puzzle::Puzzle;
use crate::seq_facts::{lemma_occurs_before, lemma_push_fresh, occurs_before};

verus! {

/// The selected vertex ids, each once, in the order in which they were
/// selected.
pub struct SelectedVertices {
    ids: Vec<usize>,
}

impl View for SelectedVertices {
    type V = Set<usize>;

    closed spec fn view(&self) -> Set<usize> {
        self.ids@.to_set()
    }
}

impl SelectedVertices {
    /// The selected ids in order.
    pub closed spec fn order(&self) -> Seq<usize> {
        self.ids@
    }

    /// No id is held twice.
    pub closed spec fn wf(&self) -> bool {
        self.ids@.no_duplicates()
    }

    /// How `order` and the set relate.
    pub proof fn lemma_order(&self)
        requires
            self.wf(),
        ensures
            self.order().no_duplicates(),
            self.order().to_set() == self@,
    {
    }

    pub fn new() -> (s: SelectedVertices)
        ensures
            s.wf(),
            s@ == Set::<usize>::empty(),
            s.order() == Seq::<usize>::empty(),
    {
        let s = SelectedVertices { ids: Vec::new() };
        assert(s.ids@.to_set() =~= Set::<usize>::empty());
        s
    }

    pub fn len(&self) -> (n: usize)
        ensures
            n == self.order().len(),
    {
        self.ids.len()
    }

    pub fn contains(&self, id: usize) -> (b: bool)
        ensures
            b == self@.contains(id),
    {
        has_id(&self.ids, id)
    }

    /// Selects `id`; the result says whether it was not selected before.
    pub fn insert(&mut self, id: usize) -> (fresh: bool)
        requires
            old(self).wf(),
        ensures
            final(self).wf(),
            final(self)@ == old(self)@.insert(id),
            fresh == !old(self)@.contains(id),
            fresh ==> final(self).order() == old(self).order().push(id),
            !fresh ==> final(self).order() == old(self).order(),
    {
        if has_id(&self.ids, id) {
            assert(self.ids@.to_set().insert(id) =~= self.ids@.to_set());
            false
        } else {
            proof {
                lemma_push_fresh(self.ids@, id);
            }
            self.ids.push(id);
            true
        }
    }

    /// Selects nothing.
    pub fn clear(&mut self)
        ensures
            final(self).wf(),
            final(self)@ == Set::<usize>::empty(),
            final(self).order() == Seq::<usize>::empty(),
    {
        self.ids.clear();
        assert(self.ids@.to_set() =~= Set::<usize>::empty());
    }

    /// The `i`-th selected id.
    pub fn get(&self, i: usize) -> (id: usize)
        requires
            i < self.order().len(),
        ensures
            id == self.order()[i as int],
    {
        self.ids[i]
    }
}

impl Default for SelectedVertices {
    fn default() -> (s: SelectedVertices)
        ensures
            s.wf(),
            s@ == Set::<usize>::empty(),
    {
        SelectedVertices::new()
    }
}

/// Entering selection: nothing is done.
pub fn on_select_enter() {
}

/// Leaving selection: nothing stays selected.
pub fn on_select_exit(v: &mut SelectedVertices)
    ensures
        final(v).wf(),
        final(v)@ == Set::<usize>::empty(),
{
    v.clear();
}

/// Vertex `id` is stored and lies less than `radius` from `p`.
pub open spec fn vertex_in_reach(puzzle: &Puzzle, id: usize, p: Point, radius: u32) -> bool {
    puzzle.vertex_map().dom().contains(id) && dist_sq(puzzle.vertex_map()[id].pos, p) < radius
        * radius
}

/// `e` is a solution edge with both ends stored, and the midpoint of its
/// ends lies less than `radius` from `p`.
pub open spec fn edge_in_reach(puzzle: &Puzzle, e: (usize, usize), p: Point, radius: u32) -> bool {
    match edge_midpoint(puzzle, e) {
        Some(m) => dist_sq(m, p) < radius * radius,
        None => false,
    }
}

/// The stored vertices that lie less than `radius` from `p`, found through
/// the index: only the cells that `grids_in_radius` lists are looked at, and
/// still no vertex is missed.
pub fn vertices_in_reach(lut: &SpatialLookup, puzzle: &Puzzle, p: Point, radius: u32) -> (ids: Vec<
    usize,
>)
    requires
        lut.wf(),
        puzzle.wf(),
        lut.indexes(puzzle),
    ensures
        ids@.no_duplicates(),
        forall|id: usize| #[trigger] ids@.contains(id) <==> vertex_in_reach(puzzle, id, p, radius),
{
    let cells = grids_in_radius(p, radius);
    let mut ids: Vec<usize> = Vec::new();
    let mut ci: usize = 0;
    while ci < cells.len()
        invariant
            0 <= ci <= cells@.len(),
            lut.wf(),
            puzzle.wf(),
            lut.indexes(puzzle),
            cells@.no_duplicates(),
            ids@.no_duplicates(),
            forall|id: usize| #[trigger]
                ids@.contains(id) <==> vertex_in_reach(puzzle, id, p, radius) && exists|g: Cell|
                    vertex_cell(puzzle, id) == Some(g) && occurs_before(cells@, g, ci as int),
        decreases cells@.len() - ci,
    {
        let g = cells[ci];
        match lut.lup_vertex(g) {
            Some(bucket) => {
                let mut bi: usize = 0;
                while bi < bucket.len()
                    invariant
                        0 <= bi <= bucket@.len(),
                        0 <= ci < cells@.len(),
                        g == cells@[ci as int],
                        lut.wf(),
                        puzzle.wf(),
                        lut.indexes(puzzle),
                        cells@.no_duplicates(),
                        bucket@.no_duplicates(),
                        bucket@.to_set() == lut.vertices_at(g),
                        ids@.no_duplicates(),
                        forall|id: usize| #[trigger]
                            ids@.contains(id) <==> vertex_in_reach(puzzle, id, p, radius) && ((
                            exists|h: Cell|
                                vertex_cell(puzzle, id) == Some(h) && occurs_before(
                                    cells@,
                                    h,
                                    ci as int,
                                )) || (vertex_cell(puzzle, id) == Some(g) && occurs_before(
                                bucket@,
                                id,
                                bi as int,
                            ))),
                    decreases bucket@.len() - bi,
                {
                    let id = bucket[bi];
                    let ghost before = ids@;
                    proof {
                        assert(bucket@.contains(bucket@[bi as int]));
                        assert(lut.vertices_at(g).contains(id));
                        assert(vertex_cell(puzzle, id) == Some(g));
                        assert forall|x: usize|
                            occurs_before(bucket@, x, bi + 1) <==> occurs_before(
                                bucket@,
                                x,
                                bi as int,
                            ) || x == id by {
                            lemma_occurs_before(bucket@, x, bi as int);
                        }
                        if before.contains(id) {
                            if occurs_before(bucket@, id, bi as int) {
                                let k = choose|k: int|
                                    0 <= k < bi && k < bucket@.len() && #[trigger] bucket@[k] == id;
                                assert(bucket@[k] == bucket@[bi as int]);
                            } else {
                                let h = choose|h: Cell|
                                    vertex_cell(puzzle, id) == Some(h) && occurs_before(
                                        cells@,
                                        h,
                                        ci as int,
                                    );
                                let k = choose|k: int|
                                    0 <= k < ci && k < cells@.len() && #[trigger] cells@[k] == h;
                                assert(cells@[k] == cells@[ci as int]);
                            }
                            assert(false);
                        }
                    }
                    let mut hit = false;
                    match puzzle.vertex_n(id) {
                        Some(v) => {
                            hit = v.pos.closer_than(p, radius);
                        },
                        None => {},
                    }
                    assert(hit == vertex_in_reach(puzzle, id, p, radius));
                    if hit {
                        proof {
                            lemma_push_fresh(before, id);
                        }
                        ids.push(id);
                        proof {
                            assert forall|x: usize| #[trigger]
                                ids@.contains(x) <==> before.contains(x) || x == id by {
                                assert(ids@.to_set().contains(x) <==> before.to_set().insert(
                                    id,
                                ).contains(x));
                            }
                        }
                    }
                    bi += 1;
                }
                proof {
                    assert forall|id: usize| #[trigger]
                        ids@.contains(id) <==> vertex_in_reach(puzzle, id, p, radius) && exists|
                            h: Cell,
                        |
                            vertex_cell(puzzle, id) == Some(h) && occurs_before(cells@, h, ci + 1) by {
                        lemma_occurs_before(bucket@, id, bi as int);
                        lemma_occurs_before(cells@, g, ci as int);
                        if vertex_cell(puzzle, id) == Some(g) {
                            assert(lut.vertices_at(g).contains(id));
                            assert(bucket@.contains(id));
                        }
                        if vertex_in_reach(puzzle, id, p, radius) {
                            let c = cell_of(puzzle.vertex_map()[id].pos);
                            lemma_occurs_before(cells@, c, ci as int);
                        }
                    }
                }
            },
            None => {
                proof {
                    assert forall|id: usize| #[trigger]
                        ids@.contains(id) <==> vertex_in_reach(puzzle, id, p, radius) && exists|
                            h: Cell,
                        |
                            vertex_cell(puzzle, id) == Some(h) && occurs_before(cells@, h, ci + 1) by {
                        lemma_occurs_before(cells@, g, ci as int);
                        if vertex_cell(puzzle, id) == Some(g) {
                            assert(lut.vertices_at(g).contains(id));
                        }
                        if vertex_in_reach(puzzle, id, p, radius) {
                            let c = cell_of(puzzle.vertex_map()[id].pos);
                            lemma_occurs_before(cells@, c, ci as int);
                        }
                    }
                }
            },
        }
        ci += 1;
    }
    proof {
        assert forall|id: usize| #[trigger]
            ids@.contains(id) <==> vertex_in_reach(puzzle, id, p, radius) by {
            if vertex_in_reach(puzzle, id, p, radius) {
                let v = puzzle.vertex_map()[id].pos;
                lemma_query_covers_disc(p, radius, v);
                assert(cells@.contains(cell_of(v)));
                lemma_occurs_before(cells@, cell_of(v), ci as int);
                assert(vertex_cell(puzzle, id) == Some(cell_of(v)));
            }
        }
    }
    ids
}

/// The solution edges between stored vertices whose midpoint lies less than
/// `radius` from `p`, found through the index: only the cells that
/// `grids_in_radius` lists are looked at, and still no edge is missed.
pub fn edges_in_reach(lut: &SpatialLookup, puzzle: &Puzzle, p: Point, radius: u32) -> (edges: Vec<
    (usize, usize),
>)
    requires
        lut.wf(),
        puzzle.wf(),
        lut.indexes(puzzle),
    ensures
        edges@.no_duplicates(),
        forall|id: (usize, usize)| #[trigger] edges@.contains(id) <==> edge_in_reach(puzzle, id, p, radius),
{
    let cells = grids_in_radius(p, radius);
    let mut edges: Vec<(usize, usize)> = Vec::new();
    let mut ci: usize = 0;
    while ci < cells.len()
        invariant
            0 <= ci <= cells@.len(),
            lut.wf(),
            puzzle.wf(),
            lut.indexes(puzzle),
            cells@.no_duplicates(),
            edges@.no_duplicates(),
            forall|id: (usize, usize)| #[trigger]
                edges@.contains(id) <==> edge_in_reach(puzzle, id, p, radius) && exists|g: Cell|
                    edge_cell(puzzle, id) == Some(g) && occurs_before(cells@, g, ci as int),
        decreases cells@.len() - ci,
    {
        let g = cells[ci];
        match lut.lup_edge(g) {
            Some(bucket) => {
                let mut bi: usize = 0;
                while bi < bucket.len()
                    invariant
                        0 <= bi <= bucket@.len(),
                        0 <= ci < cells@.len(),
                        g == cells@[ci as int],
                        lut.wf(),
                        puzzle.wf(),
                        lut.indexes(puzzle),
                        cells@.no_duplicates(),
                        bucket@.no_duplicates(),
                        bucket@.to_set() == lut.edges_at(g),
                        edges@.no_duplicates(),
                        forall|id: (usize, usize)| #[trigger]
                            edges@.contains(id) <==> edge_in_reach(puzzle, id, p, radius) && ((
                            exists|h: Cell|
                                edge_cell(puzzle, id) == Some(h) && occurs_before(
                                    cells@,
                                    h,
                                    ci as int,
                                )) || (edge_cell(puzzle, id) == Some(g) && occurs_before(
                                bucket@,
                                id,
                                bi as int,
                            ))),
                    decreases bucket@.len() - bi,
                {
                    let id = bucket[bi];
                    let ghost before = edges@;
                    proof {
                        assert(bucket@.contains(bucket@[bi as int]));
                        assert(lut.edges_at(g).contains(id));
                        assert(edge_cell(puzzle, id) == Some(g));
                        assert forall|x: (usize, usize)|
                            occurs_before(bucket@, x, bi + 1) <==> occurs_before(
                                bucket@,
                                x,
                                bi as int,
                            ) || x == id by {
                            lemma_occurs_before(bucket@, x, bi as int);
                        }
                        if before.contains(id) {
                            if occurs_before(bucket@, id, bi as int) {
                                let k = choose|k: int|
                                    0 <= k < bi && k < bucket@.len() && #[trigger] bucket@[k] == id;
                                assert(bucket@[k] == bucket@[bi as int]);
                            } else {
                                let h = choose|h: Cell|
                                    edge_cell(puzzle, id) == Some(h) && occurs_before(
                                        cells@,
                                        h,
                                        ci as int,
                                    );
                                let k = choose|k: int|
                                    0 <= k < ci && k < cells@.len() && #[trigger] cells@[k] == h;
                                assert(cells@[k] == cells@[ci as int]);
                            }
                            assert(false);
                        }
                    }
                    let mut hit = false;
                    match puzzle.vertex_n(id.0) {
                        Some(u) => {
                            match puzzle.vertex_n(id.1) {
                                Some(v) => {
                                    hit = u.pos.midpoint(v.pos).closer_than(p, radius);
                                },
                                None => {},
                            }
                        },
                        None => {},
                    }
                    proof {
                        assert(edge_cell(puzzle, id).is_some());
                        assert(puzzle.solution().contains(id));
                    }
                    assert(hit == edge_in_reach(puzzle, id, p, radius));
                    if hit {
                        proof {
                            lemma_push_fresh(before, id);
                        }
                        edges.push(id);
                        proof {
                            assert forall|x: (usize, usize)| #[trigger]
                                edges@.contains(x) <==> before.contains(x) || x == id by {
                                assert(edges@.to_set().contains(x) <==> before.to_set().insert(
                                    id,
                                ).contains(x));
                            }
                        }
                    }
                    bi += 1;
                }
                proof {
                    assert forall|id: (usize, usize)| #[trigger]
                        edges@.contains(id) <==> edge_in_reach(puzzle, id, p, radius) && exists|
                            h: Cell,
                        |
                            edge_cell(puzzle, id) == Some(h) && occurs_before(cells@, h, ci + 1) by {
                        lemma_occurs_before(bucket@, id, bi as int);
                        lemma_occurs_before(cells@, g, ci as int);
                        if edge_cell(puzzle, id) == Some(g) {
                            assert(lut.edges_at(g).contains(id));
                            assert(bucket@.contains(id));
                        }
                        if edge_in_reach(puzzle, id, p, radius) {
                            let c = cell_of(edge_midpoint(puzzle, id).unwrap());
                            lemma_occurs_before(cells@, c, ci as int);
                        }
                    }
                }
            },
            None => {
                proof {
                    assert forall|id: (usize, usize)| #[trigger]
                        edges@.contains(id) <==> edge_in_reach(puzzle, id, p, radius) && exists|
                            h: Cell,
                        |
                            edge_cell(puzzle, id) == Some(h) && occurs_before(cells@, h, ci + 1) by {
                        lemma_occurs_before(cells@, g, ci as int);
                        if edge_cell(puzzle, id) == Some(g) {
                            assert(lut.edges_at(g).contains(id));
                        }
                        if edge_in_reach(puzzle, id, p, radius) {
                            let c = cell_of(edge_midpoint(puzzle, id).unwrap());
                            lemma_occurs_before(cells@, c, ci as int);
                        }
                    }
                }
            },
        }
        ci += 1;
    }
    proof {
        assert forall|id: (usize, usize)| #[trigger]
            edges@.contains(id) <==> edge_in_reach(puzzle, id, p, radius) by {
            if edge_in_reach(puzzle, id, p, radius) {
                let v = edge_midpoint(puzzle, id).unwrap();
                lemma_query_covers_disc(p, radius, v);
                assert(cells@.contains(cell_of(v)));
                lemma_occurs_before(cells@, cell_of(v), ci as int);
                assert(edge_cell(puzzle, id) == Some(cell_of(v)));
            }
        }
    }
    edges
}

/// The radius of the eraser, the brush and the selection tool, in pixels of
/// the screen.
pub const ERASER_SCREEN_WIDTH: u32 = 120;

/// How near the pointer has to be to a vertex to hover over it, in pixels of
/// the screen.
pub const CLICK_TARGET_SIZE_PIXELS: u32 = 50;

/// The number of vertices in reach from which on the brush adds none.
pub const BRUSH_DENSITY: usize = 5;

/// Where the pointer is, and whether it is over the user interface.
#[derive(Clone, Copy, Debug, PartialEq, Eq, Structural)]
pub struct CursorState {
    pub on_ui: bool,
    pub on_egui: bool,
    pub mouse_pos: Option<Point>,
}

impl CursorState {
    /// The position of the pointer on the canvas: none while the pointer
    /// is over the user interface.
    pub fn get(&self) -> (p: Option<Point>)
        ensures
            p == if !self.on_ui && !self.on_egui {
                self.mouse_pos
            } else {
                None
            },
    {
        if !self.on_ui && !self.on_egui {
            self.mouse_pos
        } else {
            None
        }
    }
}

/// The vertex under the pointer, the vertex on which the button went down,
/// and the line from that vertex to the pointer.
#[derive(Clone, Copy, Debug)]
pub struct CursorVertexInfo {
    pub hovered: Option<usize>,
    pub clicked: Option<usize>,
    pub active_line: Option<(usize, Point)>,
}

impl CursorVertexInfo {
    /// Nothing under the pointer, nothing clicked.
    pub fn new() -> (info: CursorVertexInfo)
        ensures
            info == (CursorVertexInfo { hovered: None, clicked: None, active_line: None }),
    {
        CursorVertexInfo { hovered: None, clicked: None, active_line: None }
    }

    /// The clicked and the hovered vertex, if there are both.
    pub fn pair(&self) -> (p: Option<(usize, usize)>)
        ensures
            p == match (self.clicked, self.hovered) {
                (Some(c), Some(h)) => Some((c, h)),
                _ => None,
            },
    {
        match (self.clicked, self.hovered) {
            (Some(c), Some(h)) => Some((c, h)),
            _ => None,
        }
    }

    /// One frame of the pointer over the puzzle. The hovered vertex is the
    /// one nearest to the pointer within `radius`. When the button goes down
    /// the hovered vertex is clicked. When the button comes up over another
    /// vertex than the clicked one, the edge between the two is to be
    /// toggled, which the result says; nothing stays clicked. While a vertex
    /// is clicked the active line leads from it to the pointer.
    pub fn update(
        &mut self,
        puzzle: &Puzzle,
        pointer: Option<Point>,
        radius: u32,
        just_pressed: bool,
        just_released: bool,
    ) -> (toggle: Option<ToggleEdge>)
        requires
            puzzle.wf(),
        ensures
            match pointer {
                Some(p) => puzzle.is_nearest(p, radius, final(self).hovered),
                None => final(self).hovered.is_none(),
            },
            final(self).clicked == if just_released {
                None
            } else if just_pressed {
                final(self).hovered
            } else {
                old(self).clicked
            },
            toggle == released_over(
                just_released,
                if just_pressed {
                    final(self).hovered
                } else {
                    old(self).clicked
                },
                final(self).hovered,
            ),
            final(self).active_line == match (final(self).clicked, pointer) {
                (Some(c), Some(p)) => Some((c, p)),
                _ => None,
            },
    {
        self.hovered = match pointer {
            Some(p) => puzzle.vertex_at(p, radius),
            None => None,
        };
        if just_pressed {
            self.clicked = self.hovered;
        }
        let mut toggle: Option<ToggleEdge> = None;
        if just_released {
            match self.pair() {
                Some((a, b)) => {
                    if a != b {
                        toggle = Some(ToggleEdge(a, b));
                    }
                },
                None => {},
            }
            self.clicked = None;
        }
        self.active_line = match (self.clicked, pointer) {
            (Some(c), Some(p)) => Some((c, p)),
            _ => None,
        };
        toggle
    }
}

/// The edge to toggle when the button comes up: the one between the clicked
/// and the hovered vertex, if there are both and they differ.
pub open spec fn released_over(just_released: bool, clicked: Option<usize>, hovered: Option<usize>) -> Option<
    ToggleEdge,
> {
    match (clicked, hovered) {
        (Some(c), Some(h)) => if just_released && c != h {
            Some(ToggleEdge(c, h))
        } else {
            None
        },
        _ => None,
    }
}

/// Changes the selection by the keyboard: `clear` selects nothing, after
/// which `select_all` selects every stored vertex.
pub fn collect_selected_vertices(puzzle: &Puzzle, sel: &mut SelectedVertices, clear: bool, select_all: bool)
    requires
        puzzle.wf(),
        old(sel).wf(),
    ensures
        final(sel).wf(),
        forall|id: usize| #[trigger]
            final(sel)@.contains(id) <==> (!clear && old(sel)@.contains(id)) || (select_all
                && puzzle.vertex_map().dom().contains(id)),
{
    if clear {
        sel.clear();
    }
    if select_all {
        let ghost before = sel@;
        let vertices = puzzle.vertices();
        proof {
            puzzle.lemma_wf();
        }
        let mut i: usize = 0;
        while i < vertices.len()
            invariant
                0 <= i <= vertices@.len(),
                sel.wf(),
                puzzle.wf(),
                vertices@.len() == puzzle.vertex_ids().len(),
                forall|j: int|
                    0 <= j < vertices@.len() ==> (#[trigger] vertices@[j]).0 == puzzle.vertex_ids()[j],
                forall|id: usize| #[trigger]
                    sel@.contains(id) <==> before.contains(id) || occurs_before(
                        puzzle.vertex_ids(),
                        id,
                        i as int,
                    ),
            decreases vertices@.len() - i,
        {
            let ghost so_far = sel@;
            sel.insert(vertices[i].0);
            proof {
                assert forall|id: usize| #[trigger]
                    sel@.contains(id) <==> before.contains(id) || occurs_before(
                        puzzle.vertex_ids(),
                        id,
                        i + 1,
                    ) by {
                    lemma_occurs_before(puzzle.vertex_ids(), id, i as int);
                    assert(so_far.contains(id) <==> before.contains(id) || occurs_before(
                        puzzle.vertex_ids(),
                        id,
                        i as int,
                    ));
                }
            }
            i += 1;
        }
        proof {
            assert forall|id: usize| #[trigger]
                sel@.contains(id) <==> before.contains(id) || puzzle.vertex_map().dom().contains(
                    id,
                ) by {
                lemma_occurs_before(puzzle.vertex_ids(), id, i as int);
                assert(puzzle.vertex_ids().to_set().contains(id) == puzzle.vertex_ids().contains(
                    id,
                ));
            }
        }
    }
}

/// The selection tool: while the button is down over the canvas, every
/// stored vertex less than `radius` from the pointer is selected.
pub fn do_select(
    lut: &SpatialLookup,
    puzzle: &Puzzle,
    sel: &mut SelectedVertices,
    pointer: Option<Point>,
    radius: u32,
    is_pressed: bool,
)
    requires
        lut.wf(),
        puzzle.wf(),
        lut.indexes(puzzle),
        old(sel).wf(),
    ensures
        final(sel).wf(),
        forall|id: usize| #[trigger]
            final(sel)@.contains(id) <==> old(sel)@.contains(id) || (is_pressed && match pointer {
                Some(p) => vertex_in_reach(puzzle, id, p, radius),
                None => false,
            }),
{
    if !is_pressed {
        return ;
    }
    match pointer {
        Some(p) => {
            let ghost before = sel@;
            let ids = vertices_in_reach(lut, puzzle, p, radius);
            let mut i: usize = 0;
            while i < ids.len()
                invariant
                    0 <= i <= ids@.len(),
                    sel.wf(),
                    forall|id: usize| #[trigger]
                        sel@.contains(id) <==> before.contains(id) || occurs_before(
                            ids@,
                            id,
                            i as int,
                        ),
                decreases ids@.len() - i,
            {
                let ghost so_far = sel@;
                sel.insert(ids[i]);
                proof {
                    assert forall|id: usize| #[trigger]
                        sel@.contains(id) <==> before.contains(id) || occurs_before(
                            ids@,
                            id,
                            i + 1,
                        ) by {
                        lemma_occurs_before(ids@, id, i as int);
                        assert(so_far.contains(id) <==> before.contains(id) || occurs_before(
                            ids@,
                            id,
                            i as int,
                        ));
                    }
                }
                i += 1;
            }
            proof {
                assert forall|id: usize| #[trigger]
                    sel@.contains(id) <==> before.contains(id) || vertex_in_reach(
                        puzzle,
                        id,
                        p,
                        radius,
                    ) by {
                    lemma_occurs_before(ids@, id, i as int);
                }
            }
        },
        None => {},
    }
}

/// What the eraser touches: the vertices and the edges to mark, and the
/// requests to remove them, which are made while the button is down.
pub struct EraserOutcome {
    pub marked_vertices: Vec<usize>,
    pub marked_edges: Vec<(usize, usize)>,
    pub delete_vertices: Vec<DeleteVertex>,
    pub delete_edges: Vec<DeleteEdge>,
}

/// The eraser: every stored vertex less than `radius` from the pointer and
/// every solution edge with its midpoint less than `radius` from the pointer
/// is marked, and while the button is down its removal is requested.
pub fn do_eraser(
    lut: &SpatialLookup,
    puzzle: &Puzzle,
    pointer: Option<Point>,
    radius: u32,
    is_pressed: bool,
) -> (outcome: EraserOutcome)
    requires
        lut.wf(),
        puzzle.wf(),
        lut.indexes(puzzle),
    ensures
        outcome.marked_vertices@.no_duplicates(),
        outcome.marked_edges@.no_duplicates(),
        forall|id: usize| #[trigger]
            outcome.marked_vertices@.contains(id) <==> match pointer {
                Some(p) => vertex_in_reach(puzzle, id, p, radius),
                None => false,
            },
        forall|e: (usize, usize)| #[trigger]
            outcome.marked_edges@.contains(e) <==> match pointer {
                Some(p) => edge_in_reach(puzzle, e, p, radius),
                None => false,
            },
        outcome.delete_vertices@.len() == if is_pressed {
            outcome.marked_vertices@.len()
        } else {
            0
        },
        outcome.delete_edges@.len() == if is_pressed {
            outcome.marked_edges@.len()
        } else {
            0
        },
        forall|i: int|
            0 <= i < outcome.delete_vertices@.len() ==> #[trigger] outcome.delete_vertices@[i]
                == DeleteVertex(outcome.marked_vertices@[i]),
        forall|i: int|
            0 <= i < outcome.delete_edges@.len() ==> #[trigger] outcome.delete_edges@[i]
                == DeleteEdge(outcome.marked_edges@[i].0, outcome.marked_edges@[i].1),
{
    let mut delete_vertices: Vec<DeleteVertex> = Vec::new();
    let mut delete_edges: Vec<DeleteEdge> = Vec::new();
    match pointer {
        Some(p) => {
            let marked_vertices = vertices_in_reach(lut, puzzle, p, radius);
            let marked_edges = edges_in_reach(lut, puzzle, p, radius);
            if is_pressed {
                let mut i: usize = 0;
                while i < marked_vertices.len()
                    invariant
                        0 <= i <= marked_vertices@.len(),
                        delete_vertices@.len() == i,
                        forall|j: int|
                            0 <= j < i ==> #[trigger] delete_vertices@[j] == DeleteVertex(
                                marked_vertices@[j],
                            ),
                    decreases marked_vertices@.len() - i,
                {
                    delete_vertices.push(DeleteVertex(marked_vertices[i]));
                    i += 1;
                }
                let mut j: usize = 0;
                while j < marked_edges.len()
                    invariant
                        0 <= j <= marked_edges@.len(),
                        delete_edges@.len() == j,
                        forall|k: int|
                            0 <= k < j ==> #[trigger] delete_edges@[k] == DeleteEdge(
                                marked_edges@[k].0,
                                marked_edges@[k].1,
                            ),
                    decreases marked_edges@.len() - j,
                {
                    delete_edges.push(DeleteEdge(marked_edges[j].0, marked_edges[j].1));
                    j += 1;
                }
            }
            EraserOutcome { marked_vertices, marked_edges, delete_vertices, delete_edges }
        },
        None => EraserOutcome {
            marked_vertices: Vec::new(),
            marked_edges: Vec::new(),
            delete_vertices,
            delete_edges,
        },
    }
}

/// The brush: whether a new vertex is wanted near the pointer. One is
/// wanted while the button is down over the canvas and fewer than
/// `BRUSH_DENSITY` stored vertices lie less than `radius` from the pointer.
pub fn do_brush(
    lut: &SpatialLookup,
    puzzle: &Puzzle,
    pointer: Option<Point>,
    radius: u32,
    is_pressed: bool,
) -> (wanted: bool)
    requires
        lut.wf(),
        puzzle.wf(),
        lut.indexes(puzzle),
    ensures
        wanted == match pointer {
            Some(p) => is_pressed && Set::new(|id: usize| vertex_in_reach(puzzle, id, p, radius)).len()
                < BRUSH_DENSITY,
            None => false,
        },
{
    match pointer {
        Some(p) => {
            if !is_pressed {
                return false;
            }
            let ids = vertices_in_reach(lut, puzzle, p, radius);
            proof {
                ids@.unique_seq_to_set();
                assert(ids@.to_set() =~= Set::new(
                    |id: usize| vertex_in_reach(puzzle, id, p, radius),
                ));
            }
            ids.len() < BRUSH_DENSITY
        },
        None => false,
    }
}

} // verus!
