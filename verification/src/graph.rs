//! An undirected graph over adjacency lists, and its breadth-first
//! traversal.

use std::collections::VecDeque;
use vstd::prelude::*;

verus! {

/// Every neighbour named in `adj` is a vertex of the graph.
pub open spec fn edges_in_range(adj: Seq<Seq<usize>>) -> bool {
    forall|u: int, k: int|
        0 <= u < adj.len() && 0 <= k < adj[u].len() ==> (#[trigger] adj[u][k]) < adj.len()
}

/// `disc` with `w` appended, unless `w` is in it already.
pub open spec fn noted(disc: Seq<usize>, w: usize) -> Seq<usize> {
    if disc.contains(w) {
        disc
    } else {
        disc.push(w)
    }
}

/// `disc` after the neighbours `nbrs` have been noted one after the other.
pub open spec fn scanned(disc: Seq<usize>, nbrs: Seq<usize>) -> Seq<usize>
    decreases nbrs.len(),
{
    if nbrs.len() == 0 {
        disc
    } else {
        noted(scanned(disc, nbrs.drop_last()), nbrs.last())
    }
}

/// The list of discovered vertices once the traversal is over, given the
/// list `disc` so far, of which the first `head` have had their neighbours
/// scanned. The vertices are visited in the order of this list.
pub open spec fn explored(adj: Seq<Seq<usize>>, disc: Seq<usize>, head: int) -> Seq<usize>
    decreases adj.len() - head,
{
    if 0 <= head < disc.len() && head < adj.len() && disc[head] < adj.len() {
        explored(adj, scanned(disc, adj[disc[head] as int]), head + 1)
    } else {
        disc
    }
}

/// The order in which a breadth-first traversal from `start` visits the
/// vertices: `start`, then the neighbours of each visited vertex that were
/// not discovered before, in the order of its adjacency list.
pub open spec fn bfs_order(adj: Seq<Seq<usize>>, start: usize) -> Seq<usize> {
    explored(adj, seq![start], 0)
}

/// `path` walks along edges of the graph.
pub open spec fn is_path(adj: Seq<Seq<usize>>, path: Seq<usize>) -> bool {
    &&& path.len() > 0
    &&& forall|i: int| 0 <= i < path.len() ==> (#[trigger] path[i]) < adj.len()
    &&& forall|i: int| 0 < i < path.len() ==> adj[path[i - 1] as int].contains(#[trigger] path[i])
}

/// Some path leads from `from` to `to`.
pub open spec fn reachable(adj: Seq<Seq<usize>>, from: usize, to: usize) -> bool {
    exists|path: Seq<usize>| #[trigger] is_path(adj, path) && path[0] == from && path.last() == to
}

/// No vertex is listed twice and every entry is a vertex.
pub open spec fn tidy(adj: Seq<Seq<usize>>, disc: Seq<usize>) -> bool {
    &&& disc.no_duplicates()
    &&& forall|i: int| 0 <= i < disc.len() ==> (#[trigger] disc[i]) < adj.len()
}

/// What holds of the discovered list while the first `head` vertices of it
/// have been scanned: it starts with `start`, everything in it can be
/// reached from `start`, and the neighbours of the scanned vertices are in
/// it.
pub open spec fn traversed(adj: Seq<Seq<usize>>, start: usize, disc: Seq<usize>, head: int) -> bool {
    &&& tidy(adj, disc)
    &&& 0 <= head <= disc.len()
    &&& disc.len() > 0
    &&& disc[0] == start
    &&& forall|i: int| 0 <= i < disc.len() ==> reachable(adj, start, #[trigger] disc[i])
    &&& forall|i: int, k: int|
        0 <= i < head && 0 <= k < adj[disc[i] as int].len() ==> disc.contains(
            #[trigger] adj[disc[i] as int][k],
        )
}

/// A list of distinct vertices is no longer than the graph has vertices.
pub proof fn lemma_tidy_len(adj: Seq<Seq<usize>>, disc: Seq<usize>)
    requires
        tidy(adj, disc),
    ensures
        disc.len() <= adj.len(),
{
    let ints = disc.map_values(|v: usize| v as int);
    assert(ints.no_duplicates());
    ints.unique_seq_to_set();
    vstd::set_lib::lemma_int_range(0, adj.len() as int);
    assert(ints.to_set().subset_of(vstd::set_lib::set_int_range(0, adj.len() as int))) by {
        assert forall|x: int| ints.to_set().contains(x) implies vstd::set_lib::set_int_range(
            0,
            adj.len() as int,
        ).contains(x) by {
            let i = choose|i: int| 0 <= i < ints.len() && ints[i] == x;
            assert(disc[i] < adj.len());
        }
    }
    vstd::set_lib::lemma_len_subset(
        ints.to_set(),
        vstd::set_lib::set_int_range(0, adj.len() as int),
    );
}

/// Scanning one more neighbour notes it.
pub proof fn lemma_scanned_step(disc: Seq<usize>, nbrs: Seq<usize>, k: int)
    requires
        0 <= k < nbrs.len(),
    ensures
        scanned(disc, nbrs.take(k + 1)) == noted(scanned(disc, nbrs.take(k)), nbrs[k]),
{
    assert(nbrs.take(k + 1).drop_last() =~= nbrs.take(k));
}

/// Scanning keeps what was discovered, in place, and adds exactly the
/// neighbours that were missing.
pub proof fn lemma_scanned(adj: Seq<Seq<usize>>, disc: Seq<usize>, nbrs: Seq<usize>)
    requires
        tidy(adj, disc),
        forall|k: int| 0 <= k < nbrs.len() ==> (#[trigger] nbrs[k]) < adj.len(),
    ensures
        tidy(adj, scanned(disc, nbrs)),
        disc.len() <= scanned(disc, nbrs).len(),
        scanned(disc, nbrs).take(disc.len() as int) == disc,
        forall|k: int| 0 <= k < nbrs.len() ==> scanned(disc, nbrs).contains(#[trigger] nbrs[k]),
        forall|i: int|
            disc.len() <= i < scanned(disc, nbrs).len() ==> nbrs.contains(
                #[trigger] scanned(disc, nbrs)[i],
            ),
    decreases nbrs.len(),
{
    if nbrs.len() == 0 {
        assert(disc.take(disc.len() as int) =~= disc);
    } else {
        let before = scanned(disc, nbrs.drop_last());
        let after = scanned(disc, nbrs);
        lemma_scanned(adj, disc, nbrs.drop_last());
        assert(after.take(disc.len() as int) =~= before.take(disc.len() as int));
        assert forall|k: int| 0 <= k < nbrs.len() implies after.contains(#[trigger] nbrs[k]) by {
            if k < nbrs.len() - 1 {
                assert(nbrs.drop_last()[k] == nbrs[k]);
                let j = choose|j: int| 0 <= j < before.len() && before[j] == nbrs[k];
                assert(after[j] == nbrs[k]);
            } else if !before.contains(nbrs[k]) {
                assert(after[after.len() - 1] == nbrs[k]);
            }
        }
        assert forall|i: int| disc.len() <= i < after.len() implies nbrs.contains(
            #[trigger] after[i],
        ) by {
            if i < before.len() {
                let k = choose|k: int|
                    0 <= k < nbrs.drop_last().len() && nbrs.drop_last()[k] == before[i];
                assert(nbrs[k] == after[i]);
            } else {
                assert(nbrs[nbrs.len() - 1] == after[i]);
            }
        }
    }
}

/// A path can be extended along an edge.
pub proof fn lemma_reachable_step(adj: Seq<Seq<usize>>, start: usize, u: usize, w: usize)
    requires
        reachable(adj, start, u),
        w < adj.len(),
        adj[u as int].contains(w),
    ensures
        reachable(adj, start, w),
{
    let path = choose|path: Seq<usize>| #[trigger]
        is_path(adj, path) && path[0] == start && path.last() == u;
    let longer = path.push(w);
    assert(is_path(adj, longer)) by {
        assert forall|i: int| 0 < i < longer.len() implies adj[longer[i - 1] as int].contains(
            #[trigger] longer[i],
        ) by {
            if i < path.len() {
                assert(adj[path[i - 1] as int].contains(path[i]));
            }
        }
    }
    assert(longer[0] == start && longer.last() == w);
}

/// Scanning the vertex at `head` carries the traversal one step on.
pub proof fn lemma_traversed_step(adj: Seq<Seq<usize>>, start: usize, disc: Seq<usize>, head: int)
    requires
        edges_in_range(adj),
        traversed(adj, start, disc, head),
        head < disc.len(),
    ensures
        traversed(adj, start, scanned(disc, adj[disc[head] as int]), head + 1),
{
    let u = disc[head];
    let nbrs = adj[u as int];
    let next = scanned(disc, nbrs);
    assert forall|k: int| 0 <= k < nbrs.len() implies (#[trigger] nbrs[k]) < adj.len() by {
        assert(adj[u as int][k] < adj.len());
    }
    lemma_scanned(adj, disc, nbrs);
    assert forall|i: int| 0 <= i < next.len() implies #[trigger] next[i] == (if i < disc.len() {
        disc[i]
    } else {
        next[i]
    }) by {
        if i < disc.len() {
            assert(next.take(disc.len() as int)[i] == next[i]);
        }
    }
    assert forall|i: int| 0 <= i < next.len() implies reachable(adj, start, #[trigger] next[i]) by {
        if i < disc.len() {
            assert(next[i] == disc[i]);
        } else {
            assert(nbrs.contains(next[i]));
            assert(reachable(adj, start, disc[head]));
            lemma_reachable_step(adj, start, u, next[i]);
        }
    }
    assert forall|i: int, k: int|
        0 <= i < head + 1 && 0 <= k < adj[next[i] as int].len() implies next.contains(
        #[trigger] adj[next[i] as int][k],
    ) by {
        assert(next[i] == disc[i]);
        if i < head {
            let w = adj[disc[i] as int][k];
            assert(disc.contains(w));
            let j = choose|j: int| 0 <= j < disc.len() && disc[j] == w;
            assert(next[j] == w);
        } else {
            assert(next.contains(nbrs[k]));
        }
    }
    assert(next[0] == disc[0]);
}

/// The traversal ends with every discovered vertex scanned.
pub proof fn lemma_explored(adj: Seq<Seq<usize>>, start: usize, disc: Seq<usize>, head: int)
    requires
        edges_in_range(adj),
        traversed(adj, start, disc, head),
    ensures
        traversed(
            adj,
            start,
            explored(adj, disc, head),
            explored(adj, disc, head).len() as int,
        ),
    decreases adj.len() - head,
{
    lemma_tidy_len(adj, disc);
    if head < disc.len() {
        lemma_traversed_step(adj, start, disc, head);
        lemma_explored(adj, start, scanned(disc, adj[disc[head] as int]), head + 1);
    }
}

/// Once every discovered vertex has been scanned, whatever a path from
/// `start` leads to has been discovered.
pub proof fn lemma_closed_holds_paths(
    adj: Seq<Seq<usize>>,
    start: usize,
    disc: Seq<usize>,
    path: Seq<usize>,
)
    requires
        traversed(adj, start, disc, disc.len() as int),
        is_path(adj, path),
        path[0] == start,
    ensures
        disc.contains(path.last()),
    decreases path.len(),
{
    if path.len() == 1 {
        assert(disc[0] == path.last());
    } else {
        let shorter = path.drop_last();
        assert(is_path(adj, shorter)) by {
            assert forall|i: int| 0 < i < shorter.len() implies adj[shorter[i - 1] as int].contains(
                #[trigger] shorter[i],
            ) by {
                assert(adj[path[i - 1] as int].contains(path[i]));
            }
        }
        lemma_closed_holds_paths(adj, start, disc, shorter);
        let i = choose|i: int| 0 <= i < disc.len() && disc[i] == shorter.last();
        let last = path.len() - 1;
        assert(adj[path[last - 1] as int].contains(path[last]));
        let k = choose|k: int|
            0 <= k < adj[disc[i] as int].len() && adj[disc[i] as int][k] == path[last];
        assert(disc.contains(adj[disc[i] as int][k]));
    }
}

/// A breadth-first traversal starts with `start` and visits every vertex
/// that can be reached from it, once, and no other.
pub proof fn lemma_bfs_order(adj: Seq<Seq<usize>>, start: usize)
    requires
        edges_in_range(adj),
        start < adj.len(),
    ensures
        bfs_order(adj, start).len() > 0,
        bfs_order(adj, start)[0] == start,
        bfs_order(adj, start).no_duplicates(),
        forall|v: usize| bfs_order(adj, start).contains(v) <==> reachable(adj, start, v),
{
    let first = seq![start];
    assert(reachable(adj, start, start)) by {
        assert(is_path(adj, first) && first[0] == start && first.last() == start);
    }
    assert(traversed(adj, start, first, 0));
    lemma_explored(adj, start, first, 0);
    let order = bfs_order(adj, start);
    assert forall|v: usize| order.contains(v) <==> reachable(adj, start, v) by {
        if order.contains(v) {
            let i = choose|i: int| 0 <= i < order.len() && order[i] == v;
            assert(reachable(adj, start, order[i]));
        }
        if reachable(adj, start, v) {
            let path = choose|path: Seq<usize>| #[trigger]
                is_path(adj, path) && path[0] == start && path.last() == v;
            lemma_closed_holds_paths(adj, start, order, path);
        }
    }
}

/// An undirected graph on the vertices `0 .. n`.
pub struct Graph {
    adj: Vec<Vec<usize>>,
}

impl View for Graph {
    type V = Seq<Seq<usize>>;

    /// The adjacency list of each vertex.
    closed spec fn view(&self) -> Seq<Seq<usize>> {
        Seq::new(self.adj@.len(), |u: int| self.adj@[u]@)
    }
}

impl Graph {
    /// Every neighbour in every adjacency list is a vertex.
    pub open spec fn wf(&self) -> bool {
        edges_in_range(self@)
    }

    /// A graph of `n` vertices without edges.
    pub fn new(n: usize) -> (g: Self)
        ensures
            g.wf(),
            g@.len() == n,
            forall|u: int| 0 <= u < n ==> #[trigger] g@[u] == Seq::<usize>::empty(),
    {
        let mut adj: Vec<Vec<usize>> = Vec::new();
        while adj.len() < n
            invariant
                adj@.len() <= n,
                forall|u: int| 0 <= u < adj@.len() ==> (#[trigger] adj@[u])@.len() == 0,
            decreases n - adj@.len(),
        {
            adj.push(Vec::new());
        }
        let g = Graph { adj };
        assert forall|u: int| 0 <= u < n implies #[trigger] g@[u] == Seq::<usize>::empty() by {
            assert(g@[u] =~= Seq::<usize>::empty());
        }
        g
    }

    /// Joins `src` and `dest`: each is appended to the other's adjacency
    /// list.
    pub fn add_edge(&mut self, src: usize, dest: usize)
        requires
            old(self).wf(),
            src < old(self)@.len(),
            dest < old(self)@.len(),
        ensures
            final(self).wf(),
            final(self)@ == joined(old(self)@, src as int, dest as int),
    {
        self.adj[src].push(dest);
        self.adj[dest].push(src);
        assert(self@ =~= joined(old(self)@, src as int, dest as int));
    }

    /// The vertices in the order in which a breadth-first traversal from
    /// `start` visits them.
    pub fn bfs_with_return(&self, start: usize) -> (visit_order: Vec<usize>)
        requires
            self.wf(),
            start < self@.len(),
        ensures
            visit_order@ == bfs_order(self@, start),
            visit_order@.len() > 0,
            visit_order@[0] == start,
            visit_order@.no_duplicates(),
            forall|v: usize| visit_order@.contains(v) <==> reachable(self@, start, v),
    {
        let n = self.adj.len();
        let mut queue: VecDeque<usize> = VecDeque::new();
        let mut visited = vec![false; n];
        let mut visit_order: Vec<usize> = Vec::new();
        assert(forall|v: int| 0 <= v < n ==> !#[trigger] visited@[v]);
        visited[start] = true;
        queue.push_back(start);
        proof {
            assert(visit_order@ + queue@ =~= seq![start]);
            assert(seq![start][0] == start);
        }
        while queue.len() > 0
            invariant
                n == self@.len(),
                self.wf(),
                visited@.len() == n,
                tidy(self@, visit_order@ + queue@),
                forall|v: int|
                    0 <= v < n ==> (#[trigger] visited@[v]) == (visit_order@ + queue@).contains(
                        v as usize,
                    ),
                explored(self@, visit_order@ + queue@, visit_order@.len() as int) == bfs_order(
                    self@,
                    start,
                ),
            decreases n - visit_order@.len(),
        {
            let ghost disc = visit_order@ + queue@;
            proof {
                lemma_tidy_len(self@, disc);
            }
            let vertex = queue.pop_front().unwrap();
            visit_order.push(vertex);
            assert(visit_order@ + queue@ =~= disc);
            assert(disc[visit_order@.len() - 1] == vertex);
            let neighbors = &self.adj[vertex];
            let mut k: usize = 0;
            assert(neighbors@.take(0) =~= Seq::<usize>::empty());
            while k < neighbors.len()
                invariant
                    n == self@.len(),
                    self.wf(),
                    vertex < n,
                    neighbors@ == self@[vertex as int],
                    k <= neighbors@.len(),
                    visited@.len() == n,
                    visit_order@ + queue@ == scanned(disc, neighbors@.take(k as int)),
                    forall|v: int|
                        0 <= v < n ==> (#[trigger] visited@[v]) == (visit_order@
                            + queue@).contains(v as usize),
                decreases neighbors@.len() - k,
            {
                let neighbor = neighbors[k];
                let ghost so_far = visit_order@ + queue@;
                proof {
                    lemma_scanned_step(disc, neighbors@, k as int);
                    assert(self@[vertex as int][k as int] < n);
                }
                if !visited[neighbor] {
                    visited[neighbor] = true;
                    queue.push_back(neighbor);
                    assert(visit_order@ + queue@ =~= so_far.push(neighbor));
                    assert forall|v: int| 0 <= v < n implies (#[trigger] visited@[v]) == (
                    visit_order@ + queue@).contains(v as usize) by {
                        if v == neighbor {
                            assert((visit_order@ + queue@)[so_far.len() as int] == neighbor);
                        } else if so_far.contains(v as usize) {
                            let j = choose|j: int| 0 <= j < so_far.len() && so_far[j] == v as usize;
                            assert((visit_order@ + queue@)[j] == v as usize);
                        }
                    }
                }
                k += 1;
            }
            proof {
                assert(neighbors@.take(k as int) =~= neighbors@);
                assert forall|j: int| 0 <= j < neighbors@.len() implies (
                #[trigger] neighbors@[j]) < self@.len() by {
                    assert(self@[vertex as int][j] < n);
                }
                lemma_scanned(self@, disc, neighbors@);
            }
        }
        proof {
            assert(visit_order@ + queue@ =~= visit_order@);
            lemma_bfs_order(self@, start);
        }
        visit_order
    }
}

/// The adjacency lists after `src` and `dest` have been joined.
pub open spec fn joined(adj: Seq<Seq<usize>>, src: int, dest: int) -> Seq<Seq<usize>> {
    let half = adj.update(src, adj[src].push(dest as usize));
    half.update(dest, half[dest].push(src as usize))
}

} // verus!
