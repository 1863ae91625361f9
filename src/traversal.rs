//! The hop-bounded walk. The walk is a state machine: the caller asks which
//! vertex to expand, fetches that vertex's edges from the graph store, and
//! hands them back; the walk decides which edges to emit, which vertices join
//! the next level, and when the hop budget is spent.

use vstd::prelude::*;

use crate::identity::VertexId;
use crate::labels::LabelSet;

verus! {

/// Which relations of a vertex the walk follows.
#[derive(Clone, Copy, Debug, PartialEq, Eq, Structural)]
pub enum Direction {
    Out,
    In,
    Both,
}

/// The layout of the extracted subgraph.
#[derive(Clone, Copy, Debug, PartialEq, Eq, Structural)]
pub enum GraphType {
    /// One `from to label` line per edge.
    CsvEdgelist,
}

/// Which of a vertex's relations a batch of edges came from.
#[derive(Clone, Copy, Debug, PartialEq, Eq, Structural)]
pub enum Side {
    /// Edges leaving the vertex.
    Outbound,
    /// Edges entering the vertex.
    Inbound,
}

/// A vertex of the store: its id and its label.
#[derive(Debug)]
pub struct VertexRef {
    pub id: VertexId,
    pub label: String,
}

impl VertexRef {
    pub fn duplicate(&self) -> (r: VertexRef)
        ensures
            r == *self,
    {
        VertexRef { id: self.id, label: self.label.clone() }
    }
}

/// An edge as the store returned it, with the vertex at its other end as the
/// store resolved it (`None` when that vertex is missing).
#[derive(Debug)]
pub struct FetchedEdge {
    pub outbound_id: VertexId,
    pub inbound_id: VertexId,
    pub label: String,
    pub far: Option<VertexRef>,
}

/// One line of the extracted subgraph.
#[derive(Debug)]
pub struct EdgeRow {
    pub from: String,
    pub to: String,
    pub label: String,
}

/// What became of one fetched edge that was not a repeat.
#[derive(Debug)]
pub enum EdgeOutcome {
    /// The edge is part of the subgraph.
    Emitted(EdgeRow),
    /// The vertex at the edge's other end is missing from the store.
    Dangling(String),
    /// The edge does not touch the vertex it was fetched for, or its other end
    /// resolved to a vertex with another id.
    Corrupt(String),
}

/// One emitted edge as the walk records it: its label, the label of the
/// vertex it was found from, the label of the vertex at its other end, and the
/// number of hops from a seed at which it was found.
pub struct Emission {
    pub label: Seq<char>,
    pub near: Seq<char>,
    pub far: Seq<char>,
    pub depth: nat,
}

pub open spec fn near_id(e: FetchedEdge, side: Side) -> VertexId {
    match side {
        Side::Outbound => e.outbound_id,
        Side::Inbound => e.inbound_id,
    }
}

pub open spec fn far_id(e: FetchedEdge, side: Side) -> VertexId {
    match side {
        Side::Outbound => e.inbound_id,
        Side::Inbound => e.outbound_id,
    }
}

/// The edge touches `v_id` on the side it was fetched from, and its other
/// end, if resolved, has the id the edge names.
pub open spec fn intact(e: FetchedEdge, side: Side, v_id: VertexId) -> bool {
    &&& near_id(e, side) == v_id
    &&& (e.far matches Some(f) ==> f.id == far_id(e, side))
}

/// The line for an edge between `v` and `f`, oriented by the relation.
pub open spec fn row_of(v: VertexRef, f: VertexRef, e: FetchedEdge, side: Side) -> EdgeRow {
    match side {
        Side::Outbound => EdgeRow { from: v.label, to: f.label, label: e.label },
        Side::Inbound => EdgeRow { from: f.label, to: v.label, label: e.label },
    }
}

/// The state that one batch of edges threads through: edge labels seen,
/// vertex labels seen, outcomes so far, vertices queued for the next level,
/// and the record of emitted edges.
pub type WalkState = (Set<Seq<char>>, Set<Seq<char>>, Seq<EdgeOutcome>, Seq<VertexRef>, Seq<Emission>);

/// What one fetched edge, found from `v` at `depth` hops, does to the walk.
pub open spec fn step(w: WalkState, v: VertexRef, side: Side, depth: nat, e: FetchedEdge) -> WalkState {
    if !intact(e, side, v.id) {
        (w.0, w.1, w.2.push(EdgeOutcome::Corrupt(e.label)), w.3, w.4)
    } else if w.0.contains(e.label@) {
        w
    } else {
        match e.far {
            None => (w.0.insert(e.label@), w.1, w.2.push(EdgeOutcome::Dangling(e.label)), w.3, w.4),
            Some(f) => {
                let out = w.2.push(EdgeOutcome::Emitted(row_of(v, f, e, side)));
                let log = w.4.push(Emission { label: e.label@, near: v.label@, far: f.label@, depth });
                if w.1.contains(f.label@) {
                    (w.0.insert(e.label@), w.1, out, w.3, log)
                } else {
                    (w.0.insert(e.label@), w.1.insert(f.label@), out, w.3.push(f), log)
                }
            },
        }
    }
}

/// What a batch of edges, taken in the store's order, does to the walk.
pub open spec fn walk(w: WalkState, v: VertexRef, side: Side, depth: nat, es: Seq<FetchedEdge>) -> WalkState
    decreases es.len(),
{
    if es.len() == 0 {
        w
    } else {
        step(walk(w, v, side, depth, es.drop_last()), v, side, depth, es.last())
    }
}

/// `label` is a seed (level 0), or the far end of an edge emitted at
/// `level` hops.
pub open spec fn reached(log: Seq<Emission>, seeds: Set<Seq<char>>, label: Seq<char>, level: nat) -> bool {
    if level == 0 {
        seeds.contains(label)
    } else {
        exists|j: int| 0 <= j < log.len() && (#[trigger] log[j]).far == label && log[j].depth == level
    }
}

/// Every emitted edge lies between one and `budget` hops from a seed, and was
/// found from a vertex reached one hop closer.
pub open spec fn log_within(log: Seq<Emission>, seeds: Set<Seq<char>>, budget: nat) -> bool {
    forall|i: int|
        0 <= i < log.len() ==> 1 <= (#[trigger] log[i]).depth <= budget && reached(
            log,
            seeds,
            log[i].near,
            (log[i].depth - 1) as nat,
        )
}

/// The labels of a list of vertices.
pub open spec fn labels_of(s: Seq<VertexRef>) -> Set<Seq<char>>
    decreases s.len(),
{
    if s.len() == 0 {
        Set::empty()
    } else {
        labels_of(s.drop_last()).insert(s.last().label@)
    }
}

/// The vertices of a list, keeping the first of each label.
pub open spec fn first_by_label(s: Seq<VertexRef>) -> Seq<VertexRef>
    decreases s.len(),
{
    if s.len() == 0 {
        seq![]
    } else if labels_of(s.drop_last()).contains(s.last().label@) {
        first_by_label(s.drop_last())
    } else {
        first_by_label(s.drop_last()).push(s.last())
    }
}

pub open spec fn follows_out(d: Direction) -> bool {
    d == Direction::Out || d == Direction::Both
}

pub open spec fn follows_in(d: Direction) -> bool {
    d == Direction::In || d == Direction::Both
}

/// No two emissions share an edge label.
pub open spec fn labels_distinct(log: Seq<Emission>) -> bool {
    forall|i: int, j: int|
        0 <= i < log.len() && 0 <= j < log.len() && i != j ==> #[trigger] log[i].label
            != #[trigger] log[j].label
}

/// A walk over a store, run-scoped: every edge and every vertex is taken up
/// at most once, by label, and no edge lies further than the hop budget from
/// a seed.
pub struct Traversal {
    visited_edges: LabelSet,
    visited_vertices: LabelSet,
    frontier: Vec<VertexRef>,
    cursor: usize,
    next: Vec<VertexRef>,
    remaining: usize,
    direction: Direction,
    budget: Ghost<nat>,
    seeds: Ghost<Set<Seq<char>>>,
    log: Ghost<Seq<Emission>>,
    done: Ghost<Seq<VertexRef>>,
}

impl Traversal {
    /// Edge labels taken up so far.
    pub closed spec fn edges_seen(&self) -> Set<Seq<char>> {
        self.visited_edges@
    }

    /// Vertex labels taken up so far (seeds included).
    pub closed spec fn vertices_seen(&self) -> Set<Seq<char>> {
        self.visited_vertices@
    }

    /// The vertices of the level being expanded.
    pub closed spec fn frontier(&self) -> Seq<VertexRef> {
        self.frontier@
    }

    /// How many vertices of the current level have been expanded.
    pub closed spec fn cursor(&self) -> nat {
        self.cursor as nat
    }

    /// The vertices queued for the level after this one.
    pub closed spec fn queued(&self) -> Seq<VertexRef> {
        self.next@
    }

    /// The hop budget left for the current level.
    pub closed spec fn remaining(&self) -> nat {
        self.remaining as nat
    }

    pub closed spec fn direction(&self) -> Direction {
        self.direction
    }

    /// The hop budget the walk started with.
    pub closed spec fn budget(&self) -> nat {
        self.budget@
    }

    /// The labels of the seed vertices.
    pub closed spec fn seeds(&self) -> Set<Seq<char>> {
        self.seeds@
    }

    /// Every edge emitted so far, in order.
    pub closed spec fn log(&self) -> Seq<Emission> {
        self.log@
    }

    /// The vertices expanded so far, in order.
    pub closed spec fn expanded(&self) -> Seq<VertexRef> {
        self.done@ + self.frontier@.take(self.cursor as int)
    }

    /// The number of hops from a seed of the edges found from the current level.
    pub open spec fn depth(&self) -> nat {
        (self.budget() - self.remaining() + 1) as nat
    }

    pub closed spec fn wf(&self) -> bool {
        &&& self.cursor <= self.frontier.len()
        &&& queue_ok(self.done@ + self.frontier@, self.next@, self.visited_vertices@)
        &&& self.remaining <= self.budget@
        &&& labels_distinct(self.log@)
        &&& forall|i: int| 0 <= i < self.log@.len() ==> self.visited_edges@.contains(#[trigger] self.log@[i].label)
        &&& log_within(self.log@, self.seeds@, self.budget@)
        &&& self.remaining > 0 ==> batch_ok(
            (self.visited_edges@, self.visited_vertices@, seq![], self.next@, self.log@),
            self.seeds@,
            self.budget@,
            (self.budget@ - self.remaining) as nat,
        )
        &&& self.remaining > 0 ==> forall|k: int|
            0 <= k < self.frontier.len() ==> reached(
                self.log@,
                self.seeds@,
                (#[trigger] self.frontier@[k]).label@,
                (self.budget@ - self.remaining) as nat,
            )
    }

    /// A walk from `seeds` (the first of each label kept, in order) that
    /// follows `direction` for at most `hop` levels.
    pub fn new(seeds: Vec<VertexRef>, hop: usize, direction: Direction) -> (r: Traversal)
        ensures
            r.wf(),
            r.frontier() == first_by_label(seeds@),
            r.seeds() == labels_of(seeds@),
            r.vertices_seen() == labels_of(seeds@),
            r.edges_seen() == Set::<Seq<char>>::empty(),
            r.log() == Seq::<Emission>::empty(),
            r.expanded() == Seq::<VertexRef>::empty(),
            r.cursor() == 0,
            r.queued() == Seq::<VertexRef>::empty(),
            r.remaining() == hop,
            r.budget() == hop,
            r.direction() == direction,
    {
        let mut vertices = LabelSet::new();
        let mut frontier: Vec<VertexRef> = Vec::new();
        let mut i: usize = 0;
        while i < seeds.len()
            invariant
                i <= seeds.len(),
                vertices@ == labels_of(seeds@.take(i as int)),
                frontier@ == first_by_label(seeds@.take(i as int)),
                forall|k: int|
                    0 <= k < frontier.len() ==> labels_of(seeds@.take(i as int)).contains(
                        (#[trigger] frontier@[k]).label@,
                    ),
                labels_unique(frontier@),
                labels_of(frontier@) == vertices@,
            decreases seeds.len() - i,
        {
            let ghost before = seeds@.take(i as int);
            assert(seeds@.take(i + 1).drop_last() =~= before);
            if !vertices.contains(&seeds[i].label) {
                proof {
                    lemma_push_fresh(frontier@, seeds@[i as int]);
                }
                vertices.insert(seeds[i].label.clone());
                frontier.push(seeds[i].duplicate());
            } else {
                assert(vertices@.insert(seeds@[i as int].label@) =~= vertices@);
            }
            i = i + 1;
        }
        proof {
            assert(Seq::<VertexRef>::empty() + frontier@ + Seq::<VertexRef>::empty() =~= frontier@);
        }
        assert(seeds@.take(seeds.len() as int) =~= seeds@);
        let ghost labels = labels_of(seeds@);
        Traversal {
            visited_edges: LabelSet::new(),
            visited_vertices: vertices,
            frontier,
            cursor: 0,
            next: Vec::new(),
            remaining: hop,
            direction,
            budget: Ghost(hop as nat),
            seeds: Ghost(labels),
            log: Ghost(Seq::empty()),
            done: Ghost(Seq::empty()),
        }
    }

    /// The vertex to expand now, moving on to the next level when this one is
    /// done; `None` once the budget is spent or nothing is left to expand.
    pub fn next_vertex(&mut self) -> (r: Option<VertexRef>)
        requires
            old(self).wf(),
        ensures
            final(self).wf(),
            final(self).edges_seen() == old(self).edges_seen(),
            final(self).vertices_seen() == old(self).vertices_seen(),
            final(self).log() == old(self).log(),
            final(self).budget() == old(self).budget(),
            final(self).seeds() == old(self).seeds(),
            final(self).direction() == old(self).direction(),
            final(self).expanded() == old(self).expanded(),
            old(self).remaining() > 0 && old(self).cursor() < old(self).frontier().len() ==> {
                &&& r == Some(old(self).frontier()[old(self).cursor() as int])
                &&& final(self).frontier() == old(self).frontier()
                &&& final(self).cursor() == old(self).cursor()
                &&& final(self).queued() == old(self).queued()
                &&& final(self).remaining() == old(self).remaining()
            },
            old(self).remaining() > 1 && old(self).cursor() >= old(self).frontier().len()
                && old(self).queued().len() > 0 ==> {
                &&& r == Some(old(self).queued()[0])
                &&& final(self).frontier() == old(self).queued()
                &&& final(self).cursor() == 0
                &&& final(self).queued() == Seq::<VertexRef>::empty()
                &&& final(self).remaining() == old(self).remaining() - 1
            },
            old(self).remaining() == 0 || (old(self).cursor() >= old(self).frontier().len() && (
            old(self).remaining() == 1 || old(self).queued().len() == 0)) ==> {
                &&& r is None
                &&& final(self).remaining() == 0
                &&& final(self).frontier() == old(self).frontier()
                &&& final(self).cursor() == old(self).cursor()
                &&& final(self).queued() == old(self).queued()
            },
    {
        if self.remaining == 0 {
            return None;
        }
        if self.cursor < self.frontier.len() {
            return Some(self.frontier[self.cursor].duplicate());
        }
        if self.remaining == 1 || self.next.len() == 0 {
            self.remaining = 0;
            return None;
        }
        let ghost old_next = self.next@;
        proof {
            assert(self.frontier@.take(self.cursor as int) =~= self.frontier@);
            assert(self.done@ + self.frontier@ + old_next + Seq::<VertexRef>::empty() =~= self.done@ + self.frontier@ + old_next);
        }
        self.done = Ghost(self.done@ + self.frontier@);
        let mut queued: Vec<VertexRef> = Vec::new();
        std::mem::swap(&mut queued, &mut self.next);
        self.frontier = queued;
        self.cursor = 0;
        self.remaining = self.remaining - 1;
        proof {
            let level = (self.budget@ - self.remaining) as nat;
            assert forall|k: int| 0 <= k < self.frontier.len() implies reached(
                self.log@,
                self.seeds@,
                (#[trigger] self.frontier@[k]).label@,
                level,
            ) by {
                let w = (old(self).visited_edges@, old(self).visited_vertices@, seq![], old_next, old(self).log@);
                assert(batch_ok(w, self.seeds@, self.budget@, (level - 1) as nat));
                assert(w.3[k] == old_next[k]);
                assert(self.frontier@[k] == old_next[k]);
            }
        }
        Some(self.frontier[0].duplicate())
    }

    /// Whether an edge with this label has been taken up in this run; a
    /// caller may skip resolving the far end of such an edge.
    pub fn is_edge_seen(&self, label: &String) -> (r: bool)
        ensures
            r == self.edges_seen().contains(label@),
    {
        self.visited_edges.contains(label)
    }

    /// What expanding the current vertex with these fetched edges does:
    /// outbound edges first, then inbound ones, each relation only when the
    /// direction follows it.
    pub open spec fn expansion(
        &self,
        out_edges: Seq<FetchedEdge>,
        in_edges: Seq<FetchedEdge>,
    ) -> WalkState {
        let v = self.frontier()[self.cursor() as int];
        let w0 = (self.edges_seen(), self.vertices_seen(), Seq::<EdgeOutcome>::empty(), self.queued(), self.log());
        let w1 = if follows_out(self.direction()) {
            walk(w0, v, Side::Outbound, self.depth(), out_edges)
        } else {
            w0
        };
        if follows_in(self.direction()) {
            walk(w1, v, Side::Inbound, self.depth(), in_edges)
        } else {
            w1
        }
    }

    /// Expands the current vertex (the one `next_vertex` handed out) with
    /// its outbound and inbound edges as the store returned them, and moves
    /// past it. Repeated edges are dropped silently; every other edge gives
    /// one outcome. With no current vertex nothing changes.
    pub fn expand(&mut self, out_edges: &Vec<FetchedEdge>, in_edges: &Vec<FetchedEdge>) -> (r: Vec<EdgeOutcome>)
        requires
            old(self).wf(),
        ensures
            final(self).wf(),
            final(self).frontier() == old(self).frontier(),
            final(self).remaining() == old(self).remaining(),
            final(self).budget() == old(self).budget(),
            final(self).seeds() == old(self).seeds(),
            final(self).direction() == old(self).direction(),
            old(self).remaining() == 0 || old(self).cursor() >= old(self).frontier().len() ==> {
                &&& r@ == Seq::<EdgeOutcome>::empty()
                &&& final(self).cursor() == old(self).cursor()
                &&& final(self).edges_seen() == old(self).edges_seen()
                &&& final(self).vertices_seen() == old(self).vertices_seen()
                &&& final(self).queued() == old(self).queued()
                &&& final(self).log() == old(self).log()
                &&& final(self).expanded() == old(self).expanded()
            },
            old(self).remaining() > 0 && old(self).cursor() < old(self).frontier().len() ==> {
                &&& (final(self).edges_seen(), final(self).vertices_seen(), r@, final(self).queued(), final(self).log())
                    == old(self).expansion(out_edges@, in_edges@)
                &&& final(self).cursor() == old(self).cursor() + 1
                &&& final(self).expanded() == old(self).expanded().push(old(self).frontier()[old(self).cursor() as int])
            },
    {
        let mut out: Vec<EdgeOutcome> = Vec::new();
        if self.remaining == 0 || self.cursor >= self.frontier.len() {
            return out;
        }
        let v = self.frontier[self.cursor].duplicate();
        let ghost level = (self.budget@ - self.remaining) as nat;
        let ghost log0 = self.log@;
        let ghost w0 = (self.visited_edges@, self.visited_vertices@, out@, self.next@, self.log@);
        proof {
            assert(reached(self.log@, self.seeds@, v.label@, level));
        }
        if self.direction == Direction::Out || self.direction == Direction::Both {
            self.take_batch(&v, Side::Outbound, Ghost(level + 1), out_edges, &mut out);
            proof {
                lemma_walk_ok(w0, v, Side::Outbound, level, out_edges@, self.seeds@, self.budget@);
                lemma_walk_queue(self.done@ + self.frontier@, w0, v, Side::Outbound, level + 1, out_edges@);
            }
        }
        let ghost w1 = (self.visited_edges@, self.visited_vertices@, out@, self.next@, self.log@);
        proof {
            if !(self.direction == Direction::Out || self.direction == Direction::Both) {
                assert(w1.4 == log0 + Seq::<Emission>::empty());
            }
            let more = choose|more: Seq<Emission>| w1.4 == log0 + more;
            lemma_reached_grows(log0, more, self.seeds@, v.label@, level);
            assert(batch_ok(w1, self.seeds@, self.budget@, level));
        }
        if self.direction == Direction::In || self.direction == Direction::Both {
            self.take_batch(&v, Side::Inbound, Ghost(level + 1), in_edges, &mut out);
            proof {
                lemma_walk_ok(w1, v, Side::Inbound, level, in_edges@, self.seeds@, self.budget@);
                lemma_walk_queue(self.done@ + self.frontier@, w1, v, Side::Inbound, level + 1, in_edges@);
            }
        }
        proof {
            let w2 = (self.visited_edges@, self.visited_vertices@, out@, self.next@, self.log@);
            assert(exists|more: Seq<Emission>| w2.4 == log0 + more) by {
                let m1 = choose|more: Seq<Emission>| w1.4 == log0 + more;
                if self.direction == Direction::In || self.direction == Direction::Both {
                    let m2 = choose|more: Seq<Emission>| w2.4 == w1.4 + more;
                    assert(w2.4 == log0 + (m1 + m2));
                } else {
                    assert(w2.4 == log0 + m1);
                }
            }
            let more = choose|more: Seq<Emission>| w2.4 == log0 + more;
            assert forall|k: int| 0 <= k < self.frontier.len() implies reached(
                self.log@,
                self.seeds@,
                (#[trigger] self.frontier@[k]).label@,
                level,
            ) by {
                lemma_reached_grows(log0, more, self.seeds@, self.frontier@[k].label@, level);
            }
            assert(batch_ok(w2, self.seeds@, self.budget@, level));
            let wz = (self.visited_edges@, self.visited_vertices@, seq![], self.next@, self.log@);
            assert(wz.0 == w2.0 && wz.3 == w2.3 && wz.4 == w2.4);
            assert(batch_ok(wz, self.seeds@, self.budget@, level));
        }
        proof {
            assert(self.frontier@.take(self.cursor + 1) =~= self.frontier@.take(self.cursor as int).push(v));
            assert(self.done@ + self.frontier@.take(self.cursor + 1) =~= (self.done@ + self.frontier@.take(self.cursor as int)).push(v));
        }
        self.cursor = self.cursor + 1;
        out
    }

    /// Takes one batch of edges of `v`, found at `depth` hops, in order.
    fn take_batch(
        &mut self,
        v: &VertexRef,
        side: Side,
        depth: Ghost<nat>,
        edges: &Vec<FetchedEdge>,
        out: &mut Vec<EdgeOutcome>,
    )
        ensures
            (final(self).visited_edges@, final(self).visited_vertices@, final(out)@, final(self).next@, final(self).log@)
                == walk(
                (old(self).visited_edges@, old(self).visited_vertices@, old(out)@, old(self).next@, old(self).log@),
                *v,
                side,
                depth@,
                edges@,
            ),
            final(self).frontier == old(self).frontier,
            final(self).cursor == old(self).cursor,
            final(self).remaining == old(self).remaining,
            final(self).direction == old(self).direction,
            final(self).budget == old(self).budget,
            final(self).seeds == old(self).seeds,
            final(self).done == old(self).done,
    {
        let ghost w0 = (self.visited_edges@, self.visited_vertices@, out@, self.next@, self.log@);
        let mut i: usize = 0;
        while i < edges.len()
            invariant
                i <= edges.len(),
                (self.visited_edges@, self.visited_vertices@, out@, self.next@, self.log@) == walk(
                    w0,
                    *v,
                    side,
                    depth@,
                    edges@.take(i as int),
                ),
                self.frontier == old(self).frontier,
                self.cursor == old(self).cursor,
                self.remaining == old(self).remaining,
                self.direction == old(self).direction,
                self.budget == old(self).budget,
                self.seeds == old(self).seeds,
                self.done == old(self).done,
            decreases edges.len() - i,
        {
            let e = &edges[i];
            let near_ok = match side {
                Side::Outbound => e.outbound_id == v.id,
                Side::Inbound => e.inbound_id == v.id,
            };
            let far_ok = match &e.far {
                Some(f) => f.id == match side {
                    Side::Outbound => e.inbound_id,
                    Side::Inbound => e.outbound_id,
                },
                None => true,
            };
            if !(near_ok && far_ok) {
                out.push(EdgeOutcome::Corrupt(e.label.clone()));
            } else if self.visited_edges.contains(&e.label) {
            } else {
                self.visited_edges.insert(e.label.clone());
                match &e.far {
                    None => {
                        out.push(EdgeOutcome::Dangling(e.label.clone()));
                    },
                    Some(f) => {
                        let row = match side {
                            Side::Outbound => EdgeRow {
                                from: v.label.clone(),
                                to: f.label.clone(),
                                label: e.label.clone(),
                            },
                            Side::Inbound => EdgeRow {
                                from: f.label.clone(),
                                to: v.label.clone(),
                                label: e.label.clone(),
                            },
                        };
                        out.push(EdgeOutcome::Emitted(row));
                        self.log = Ghost(
                            self.log@.push(
                                Emission { label: e.label@, near: v.label@, far: f.label@, depth: depth@ },
                            ),
                        );
                        if !self.visited_vertices.contains(&f.label) {
                            self.visited_vertices.insert(f.label.clone());
                            self.next.push(f.duplicate());
                        }
                    },
                }
            }
            assert(edges@.take(i + 1).drop_last() =~= edges@.take(i as int));
            i = i + 1;
        }
        assert(edges@.take(edges.len() as int) =~= edges@);
    }
}

/// No edge label is emitted twice in one run: the labels of the emitted
/// edges are pairwise distinct, and each is among the labels taken up.
pub proof fn lemma_no_repeated_edge(t: &Traversal)
    requires
        t.wf(),
    ensures
        labels_distinct(t.log()),
        forall|i: int| 0 <= i < t.log().len() ==> t.edges_seen().contains(#[trigger] t.log()[i].label),
{
}

/// Every emitted edge lies within the hop budget of a seed: it lies between
/// one and `budget` hops out, and was found from a seed (one hop) or from the
/// far end of an edge emitted one hop closer. With a budget of zero no edge
/// is ever emitted.
pub proof fn lemma_within_budget(t: &Traversal)
    requires
        t.wf(),
    ensures
        log_within(t.log(), t.seeds(), t.budget()),
        t.budget() == 0 ==> t.log().len() == 0,
{
    if t.budget() == 0 && t.log().len() > 0 {
        assert(1 <= t.log()[0].depth <= t.budget());
    }
}

/// No two vertices of the list share a label.
pub open spec fn labels_unique(s: Seq<VertexRef>) -> bool {
    forall|i: int, j: int|
        0 <= i < s.len() && 0 <= j < s.len() && i != j ==> #[trigger] s[i].label@ != #[trigger] s[j].label@
}

/// Every vertex ever queued (`prior`, then `queued`) has a label of its own,
/// and these labels are exactly the vertex labels `seen`.
pub open spec fn queue_ok(prior: Seq<VertexRef>, queued: Seq<VertexRef>, seen: Set<Seq<char>>) -> bool {
    &&& labels_unique(prior + queued)
    &&& labels_of(prior + queued) == seen
}

proof fn lemma_labels_of_has(s: Seq<VertexRef>, i: int)
    requires
        0 <= i < s.len(),
    ensures
        labels_of(s).contains(s[i].label@),
    decreases s.len(),
{
    if i < s.len() - 1 {
        lemma_labels_of_has(s.drop_last(), i);
        assert(s.drop_last()[i] == s[i]);
    }
}

proof fn lemma_push_fresh(s: Seq<VertexRef>, x: VertexRef)
    requires
        labels_unique(s),
        !labels_of(s).contains(x.label@),
    ensures
        labels_unique(s.push(x)),
        labels_of(s.push(x)) == labels_of(s).insert(x.label@),
{
    assert forall|i: int| 0 <= i < s.len() implies (#[trigger] s[i]).label@ != x.label@ by {
        lemma_labels_of_has(s, i);
    }
    assert(s.push(x).drop_last() =~= s);
    let t = s.push(x);
    assert forall|i: int, j: int|
        0 <= i < t.len() && 0 <= j < t.len() && i != j implies #[trigger] t[i].label@ != #[trigger] t[j].label@ by {
        if i < s.len() && j < s.len() {
            assert(t[i] == s[i] && t[j] == s[j]);
        } else if i < s.len() {
            assert(t[i] == s[i]);
        } else {
            assert(t[j] == s[j]);
        }
    }
}

/// A batch of edges keeps every queued vertex's label its own.
proof fn lemma_walk_queue(prior: Seq<VertexRef>, w: WalkState, v: VertexRef, side: Side, depth: nat, es: Seq<FetchedEdge>)
    requires
        queue_ok(prior, w.3, w.1),
    ensures
        queue_ok(prior, walk(w, v, side, depth, es).3, walk(w, v, side, depth, es).1),
    decreases es.len(),
{
    if es.len() > 0 {
        lemma_walk_queue(prior, w, v, side, depth, es.drop_last());
        let w1 = walk(w, v, side, depth, es.drop_last());
        let e = es.last();
        if intact(e, side, v.id) && !w1.0.contains(e.label@) && e.far is Some && !w1.1.contains(
            e.far->Some_0.label@,
        ) {
            let f = e.far->Some_0;
            lemma_push_fresh(prior + w1.3, f);
            assert(prior + w1.3.push(f) =~= (prior + w1.3).push(f));
        }
    }
}

/// No vertex is expanded twice in one run: the vertices expanded so far have
/// pairwise distinct labels.
pub proof fn lemma_vertex_expanded_once(t: &Traversal)
    requires
        t.wf(),
    ensures
        labels_unique(t.expanded()),
{
    let all = t.done@ + t.frontier@ + t.next@;
    let e = t.expanded();
    assert(t.done@ + t.frontier@ + t.next@ == (t.done@ + t.frontier@) + t.next@);
    assert forall|i: int, j: int|
        0 <= i < e.len() && 0 <= j < e.len() && i != j implies #[trigger] e[i].label@ != #[trigger] e[j].label@ by {
        assert(e[i] == all[i] && e[j] == all[j]);
    }
}

/// The invariant that every batch keeps: emitted labels are distinct and
/// seen, emitted edges lie within the budget, and queued vertices are reached
/// one level below `level`.
pub open spec fn batch_ok(w: WalkState, seeds: Set<Seq<char>>, budget: nat, level: nat) -> bool {
    &&& labels_distinct(w.4)
    &&& forall|i: int| 0 <= i < w.4.len() ==> w.0.contains(#[trigger] w.4[i].label)
    &&& log_within(w.4, seeds, budget)
    &&& forall|k: int| 0 <= k < w.3.len() ==> reached(w.4, seeds, (#[trigger] w.3[k]).label@, level + 1)
}

pub proof fn lemma_reached_grows(log: Seq<Emission>, more: Seq<Emission>, seeds: Set<Seq<char>>, label: Seq<char>, level: nat)
    requires
        reached(log, seeds, label, level),
    ensures
        reached(log + more, seeds, label, level),
{
    if level > 0 {
        let j = choose|j: int| 0 <= j < log.len() && (#[trigger] log[j]).far == label && log[j].depth == level;
        assert((log + more)[j] == log[j]);
    }
}

/// One edge keeps the batch invariant, and only extends the record.
proof fn lemma_step_ok(w: WalkState, v: VertexRef, side: Side, level: nat, e: FetchedEdge, seeds: Set<Seq<char>>, budget: nat)
    requires
        batch_ok(w, seeds, budget, level),
        level + 1 <= budget,
        reached(w.4, seeds, v.label@, level),
    ensures
        batch_ok(step(w, v, side, level + 1, e), seeds, budget, level),
        exists|more: Seq<Emission>| step(w, v, side, level + 1, e).4 == w.4 + more,
{
    let w2 = step(w, v, side, level + 1, e);
    if w2.4 == w.4 {
        assert(w.4 == w.4 + Seq::<Emission>::empty());
        if !intact(e, side, v.id) || w.0.contains(e.label@) {
        } else {
            assert forall|i: int| 0 <= i < w2.4.len() implies w2.0.contains(#[trigger] w2.4[i].label) by {
                assert(w.0.contains(w.4[i].label));
            }
        }
    } else {
        let f = e.far->Some_0;
        let x = Emission { label: e.label@, near: v.label@, far: f.label@, depth: level + 1 };
        assert(w2.4 == w.4.push(x));
        assert(w2.4 == w.4 + seq![x]);
        assert forall|i: int| 0 <= i < w2.4.len() implies w2.0.contains(#[trigger] w2.4[i].label) by {
            if i < w.4.len() {
                assert(w.0.contains(w.4[i].label));
            }
        }
        assert forall|i: int, j: int|
            0 <= i < w2.4.len() && 0 <= j < w2.4.len() && i != j implies #[trigger] w2.4[i].label
            != #[trigger] w2.4[j].label by {
            if i < w.4.len() && j < w.4.len() {
                assert(w.4[i].label != w.4[j].label);
            } else if i < w.4.len() {
                assert(w.0.contains(w.4[i].label));
            } else {
                assert(w.0.contains(w.4[j].label));
            }
        }
        assert forall|i: int| 0 <= i < w2.4.len() implies 1 <= (#[trigger] w2.4[i]).depth <= budget
            && reached(w2.4, seeds, w2.4[i].near, (w2.4[i].depth - 1) as nat) by {
            if i < w.4.len() {
                assert(w2.4[i] == w.4[i]);
                lemma_reached_grows(w.4, seq![x], seeds, w.4[i].near, (w.4[i].depth - 1) as nat);
            } else {
                lemma_reached_grows(w.4, seq![x], seeds, v.label@, level);
            }
        }
        assert forall|k: int| 0 <= k < w2.3.len() implies reached(w2.4, seeds, (#[trigger] w2.3[k]).label@, level + 1) by {
            if k < w.3.len() {
                assert(w2.3[k] == w.3[k]);
                lemma_reached_grows(w.4, seq![x], seeds, w.3[k].label@, level + 1);
            } else {
                assert(w2.4[w.4.len() as int] == x);
            }
        }
    }
}

/// A batch of edges keeps the batch invariant, and only extends the record.
proof fn lemma_walk_ok(w: WalkState, v: VertexRef, side: Side, level: nat, es: Seq<FetchedEdge>, seeds: Set<Seq<char>>, budget: nat)
    requires
        batch_ok(w, seeds, budget, level),
        level + 1 <= budget,
        reached(w.4, seeds, v.label@, level),
    ensures
        batch_ok(walk(w, v, side, level + 1, es), seeds, budget, level),
        exists|more: Seq<Emission>| walk(w, v, side, level + 1, es).4 == w.4 + more,
    decreases es.len(),
{
    if es.len() == 0 {
        assert(w.4 == w.4 + Seq::<Emission>::empty());
    } else {
        let w1 = walk(w, v, side, level + 1, es.drop_last());
        lemma_walk_ok(w, v, side, level, es.drop_last(), seeds, budget);
        let more1 = choose|more: Seq<Emission>| w1.4 == w.4 + more;
        lemma_reached_grows(w.4, more1, seeds, v.label@, level);
        lemma_step_ok(w1, v, side, level, es.last(), seeds, budget);
        let more2 = choose|more: Seq<Emission>| step(w1, v, side, level + 1, es.last()).4 == w1.4 + more;
        assert(w.4 + more1 + more2 == w.4 + (more1 + more2));
    }
}

} // verus!
