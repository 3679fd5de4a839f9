//! The capacity-constrained weighted bipartite assignment engine.
//!
//! Posts (jobs) take up to `capacity` concurrent applicants (agents, each
//! with implicit capacity one); edges carry the signed net weight of one
//! candidate pairing. The matching algorithm repeatedly places an applicant
//! that is open to work on its best available edge, evicting a strictly
//! weaker incumbent when every adjacent post is saturated.

use vstd::prelude::*;

verus! {

/// An applicant vertex: its payload, the indices of its incident edges, the
/// edge it is currently assigned through (if any), and whether it is still
/// seeking work.
#[derive(Debug)]
pub struct ANode<A> {
    /// The applicant payload.
    pub applicant: A,
    /// Indices of the incident edges.
    pub neighbours: Vec<usize>,
    /// The edge this applicant is currently assigned through.
    pub current_post: Option<usize>,
    /// Whether the applicant still seeks an assignment.
    pub open_to_work: bool,
}

impl<A> ANode<A> {
    /// A fresh applicant vertex: no edges, unassigned, open to work.
    pub fn new(applicant: A) -> (r: ANode<A>)
        ensures
            r.applicant == applicant,
            r.neighbours@.len() == 0,
            r.current_post is None,
            r.open_to_work,
    {
        ANode { applicant, neighbours: Vec::new(), current_post: None, open_to_work: true }
    }
}

/// A post vertex: its payload, the indices of its incident edges, how many
/// applicants it can absorb concurrently, and the edges of its current
/// assignments.
#[derive(Debug)]
pub struct PNode<P> {
    /// The post payload.
    pub post: P,
    /// Indices of the incident edges.
    pub neighbours: Vec<usize>,
    /// Most applicants this post can absorb concurrently.
    pub capacity: usize,
    /// Edges of the current assignments, at most `capacity` of them.
    pub current_applicants: Vec<usize>,
}

impl<P> PNode<P> {
    /// A fresh post vertex: no edges and no assignments.
    pub fn new(post: P, capacity: usize) -> (r: PNode<P>)
        ensures
            r.post == post,
            r.neighbours@.len() == 0,
            r.capacity == capacity,
            r.current_applicants@.len() == 0,
    {
        PNode { post, neighbours: Vec::new(), capacity, current_applicants: Vec::new() }
    }
}

/// An edge between a post and an applicant, carrying the signed weight of
/// that pairing.
#[derive(Debug)]
pub struct Edge<W> {
    /// Index of the post endpoint.
    pub p_i: usize,
    /// Index of the applicant endpoint.
    pub a_i: usize,
    /// The signed weight of the pairing.
    pub weight: W,
}

impl<W> Edge<W> {
    /// A fresh edge.
    pub fn new(p_i: usize, a_i: usize, weight: W) -> (r: Edge<W>)
        ensures
            r.p_i == p_i,
            r.a_i == a_i,
            r.weight == weight,
    {
        Edge { p_i, a_i, weight }
    }
}

/// A weighted bipartite graph whose post side carries capacities, stored as
/// flat indexable sequences: vertices hold only edge indices, edges hold
/// the indices of their two endpoints.
#[derive(Debug)]
pub struct Bipartite<P, A, W> {
    /// The post vertices.
    pub posts: Vec<PNode<P>>,
    /// The applicant vertices.
    pub applicants: Vec<ANode<A>>,
    /// The edges.
    pub edges: Vec<Edge<W>>,
}

impl<P, A, W> Bipartite<P, A, W> {
    /// An empty graph.
    pub fn new() -> (r: Bipartite<P, A, W>)
        ensures
            r.posts@.len() == 0,
            r.applicants@.len() == 0,
            r.edges@.len() == 0,
            r.wf(),
    {
        let r = Bipartite { posts: Vec::new(), applicants: Vec::new(), edges: Vec::new() };
        proof {
            assert(r.wf());
        }
        r
    }

    /// Edge `e` exists and points at existing vertices.
    pub open spec fn edge_wf(self, e: int) -> bool {
        &&& 0 <= e < self.edges@.len()
        &&& (self.edges@[e].p_i as int) < self.posts@.len()
        &&& (self.edges@[e].a_i as int) < self.applicants@.len()
    }

    /// The applicant vertex `a` is well-formed: its neighbour list names
    /// edges that point back at it, and its assignment (if any) is through
    /// such an edge and recorded at the post's end too.
    pub open spec fn appl_wf(self, a: int) -> bool {
        &&& forall|j: int|
            0 <= j < self.applicants@[a].neighbours@.len() ==> {
                let e = #[trigger] self.applicants@[a].neighbours@[j];
                self.edge_wf(e as int) && self.edges@[e as int].a_i == a
            }
        &&& match self.applicants@[a].current_post {
            Some(e) => self.edge_wf(e as int) && self.edges@[e as int].a_i == a && self.posts@[
                self.edges@[e as int].p_i as int
            ].current_applicants@.contains(e),
            None => true,
        }
    }

    /// The post vertex `p` is well-formed: its neighbour list names edges
    /// that point back at it, it holds at most `capacity` assignments, each
    /// assignment is through such an edge whose applicant points back at
    /// it, and no assignment is recorded twice.
    pub open spec fn post_wf(self, p: int) -> bool {
        &&& forall|j: int|
            0 <= j < self.posts@[p].neighbours@.len() ==> {
                let e = #[trigger] self.posts@[p].neighbours@[j];
                self.edge_wf(e as int) && self.edges@[e as int].p_i == p
            }
        &&& self.posts@[p].current_applicants@.len() <= self.posts@[p].capacity
        &&& forall|j: int|
            0 <= j < self.posts@[p].current_applicants@.len() ==> {
                let e = #[trigger] self.posts@[p].current_applicants@[j];
                self.edge_wf(e as int) && self.edges@[e as int].p_i == p && self.applicants@[
                    self.edges@[e as int].a_i as int
                ].current_post == Some(e)
            }
        &&& forall|j1: int, j2: int|
            0 <= j1 < j2 < self.posts@[p].current_applicants@.len()
                ==> self.posts@[p].current_applicants@[j1] != self.posts@[p].current_applicants@[j2]
    }

    /// The whole graph is well-formed. This includes the central safety
    /// bound: no post ever holds more assignments than its capacity.
    pub open spec fn wf(self) -> bool {
        &&& forall|e: int| 0 <= e < self.edges@.len() ==> self.edge_wf(e)
        &&& forall|a: int| 0 <= a < self.applicants@.len() ==> self.appl_wf(a)
        &&& forall|p: int| 0 <= p < self.posts@.len() ==> self.post_wf(p)
    }

    /// Appends an applicant vertex; it starts unassigned and open.
    pub fn add_applicant(&mut self, applicant: A) -> (r: usize)
        requires
            old(self).wf(),
        ensures
            final(self).wf(),
            r == old(self).applicants@.len(),
            final(self).applicants@.len() == old(self).applicants@.len() + 1,
            final(self).posts@ == old(self).posts@,
            final(self).edges@ == old(self).edges@,
            forall|a: int|
                0 <= a < old(self).applicants@.len() ==> final(self).applicants@[a] == old(self).applicants@[a],
            final(self).applicants@[r as int].applicant == applicant,
            final(self).applicants@[r as int].neighbours@.len() == 0,
            final(self).applicants@[r as int].current_post is None,
            final(self).applicants@[r as int].open_to_work,
    {
        let r = self.applicants.len();
        self.applicants.push(ANode::new(applicant));
        proof {
            assert forall|e: int| 0 <= e < self.edges@.len() implies self.edge_wf(e) by {
                assert(old(self).edge_wf(e));
            }
            assert forall|a: int| 0 <= a < self.applicants@.len() implies self.appl_wf(a) by {
                if a < r {
                    assert(old(self).appl_wf(a));
                }
            }
            assert forall|p: int| 0 <= p < self.posts@.len() implies self.post_wf(p) by {
                assert(old(self).post_wf(p));
            }
        }
        r
    }

    /// Appends a post vertex with the given capacity; it starts empty.
    pub fn add_post(&mut self, post: P, capacity: usize) -> (r: usize)
        requires
            old(self).wf(),
        ensures
            final(self).wf(),
            r == old(self).posts@.len(),
            final(self).posts@.len() == old(self).posts@.len() + 1,
            final(self).applicants@ == old(self).applicants@,
            final(self).edges@ == old(self).edges@,
            forall|p: int|
                0 <= p < old(self).posts@.len() ==> final(self).posts@[p] == old(self).posts@[p],
            final(self).posts@[r as int].post == post,
            final(self).posts@[r as int].neighbours@.len() == 0,
            final(self).posts@[r as int].capacity == capacity,
            final(self).posts@[r as int].current_applicants@.len() == 0,
    {
        let r = self.posts.len();
        self.posts.push(PNode::new(post, capacity));
        proof {
            assert forall|e: int| 0 <= e < self.edges@.len() implies self.edge_wf(e) by {
                assert(old(self).edge_wf(e));
            }
            assert forall|a: int| 0 <= a < self.applicants@.len() implies self.appl_wf(a) by {
                assert(old(self).appl_wf(a));
            }
            assert forall|p: int| 0 <= p < self.posts@.len() implies self.post_wf(p) by {
                if p < r {
                    assert(old(self).post_wf(p));
                }
            }
        }
        r
    }

    /// Adds one edge between an existing post and an existing applicant:
    /// the edge record is allocated, its index is appended to both
    /// endpoints' neighbour lists, and the applicant is marked as still
    /// seeking work. No assignment changes.
    pub fn push_edge(&mut self, p: usize, a: usize, weight: W) -> (e: usize)
        requires
            old(self).wf(),
            p < old(self).posts@.len(),
            a < old(self).applicants@.len(),
        ensures
            final(self).wf(),
            e == old(self).edges@.len(),
            final(self).edges@ == old(self).edges@.push(Edge { p_i: p, a_i: a, weight }),
            final(self).posts@.len() == old(self).posts@.len(),
            final(self).applicants@.len() == old(self).applicants@.len(),
            forall|q: int|
                0 <= q < old(self).posts@.len() && q != p ==> final(self).posts@[q] == old(self).posts@[q],
            final(self).posts@[p as int].post == old(self).posts@[p as int].post,
            final(self).posts@[p as int].capacity == old(self).posts@[p as int].capacity,
            final(self).posts@[p as int].current_applicants@ == old(self).posts@[p as int].current_applicants@,
            final(self).posts@[p as int].neighbours@ == old(self).posts@[p as int].neighbours@.push(e),
            forall|b: int|
                0 <= b < old(self).applicants@.len() && b != a ==> final(self).applicants@[b]
                    == old(self).applicants@[b],
            final(self).applicants@[a as int].applicant == old(self).applicants@[a as int].applicant,
            final(self).applicants@[a as int].current_post == old(self).applicants@[a as int].current_post,
            final(self).applicants@[a as int].neighbours@ == old(self).applicants@[a as int].neighbours@.push(e),
            final(self).applicants@[a as int].open_to_work,
    {
        let e = self.edges.len();
        self.edges.push(Edge::new(p, a, weight));
        let mut pnode = self.posts.remove(p);
        pnode.neighbours.push(e);
        self.posts.insert(p, pnode);
        proof {
            assert(self.posts@ =~= old(self).posts@.update(
                p as int,
                PNode {
                    post: old(self).posts@[p as int].post,
                    neighbours: self.posts@[p as int].neighbours,
                    capacity: old(self).posts@[p as int].capacity,
                    current_applicants: old(self).posts@[p as int].current_applicants,
                },
            ));
        }
        let mut anode = self.applicants.remove(a);
        anode.neighbours.push(e);
        anode.open_to_work = true;
        self.applicants.insert(a, anode);
        proof {
            assert(self.applicants@ =~= old(self).applicants@.update(
                a as int,
                ANode {
                    applicant: old(self).applicants@[a as int].applicant,
                    neighbours: self.applicants@[a as int].neighbours,
                    current_post: old(self).applicants@[a as int].current_post,
                    open_to_work: true,
                },
            ));
            let pre = *old(self);
            assert forall|x: int| 0 <= x < self.edges@.len() implies self.edge_wf(x) by {
                if x < pre.edges@.len() {
                    assert(pre.edge_wf(x));
                }
            }
            assert forall|b: int| 0 <= b < self.applicants@.len() implies self.appl_wf(b) by {
                assert(pre.appl_wf(b));
                assert forall|j: int|
                    0 <= j < self.applicants@[b].neighbours@.len() implies {
                    let x = #[trigger] self.applicants@[b].neighbours@[j];
                    self.edge_wf(x as int) && self.edges@[x as int].a_i == b
                } by {
                    if b == a && j == self.applicants@[b].neighbours@.len() - 1 {
                        assert(self.applicants@[b].neighbours@[j] == e);
                    } else {
                        assert(self.applicants@[b].neighbours@[j]
                            == pre.applicants@[b].neighbours@[j]);
                    }
                }
                match self.applicants@[b].current_post {
                    Some(x) => {
                        assert(pre.posts@[pre.edges@[x as int].p_i as int].current_applicants@
                            .contains(x));
                    },
                    None => {},
                }
            }
            assert forall|q: int| 0 <= q < self.posts@.len() implies self.post_wf(q) by {
                assert(pre.post_wf(q));
                assert forall|j: int|
                    0 <= j < self.posts@[q].neighbours@.len() implies {
                    let x = #[trigger] self.posts@[q].neighbours@[j];
                    self.edge_wf(x as int) && self.edges@[x as int].p_i == q
                } by {
                    if q == p && j == self.posts@[q].neighbours@.len() - 1 {
                        assert(self.posts@[q].neighbours@[j] == e);
                    } else {
                        assert(self.posts@[q].neighbours@[j] == pre.posts@[q].neighbours@[j]);
                    }
                }
                assert forall|j: int|
                    0 <= j < self.posts@[q].current_applicants@.len() implies {
                    let x = #[trigger] self.posts@[q].current_applicants@[j];
                    self.edge_wf(x as int) && self.edges@[x as int].p_i == q && self.applicants@[
                        self.edges@[x as int].a_i as int
                    ].current_post == Some(x)
                } by {
                    assert(self.posts@[q].current_applicants@[j]
                        == pre.posts@[q].current_applicants@[j]);
                }
            }
        }
        e
    }

    /// Among the first `n` assignment slots of post `q`, how many belong
    /// to applicants with an index below `a`.
    pub open spec fn matched_below(self, q: int, a: int, n: int) -> int
        decreases n,
    {
        if n <= 0 {
            0
        } else {
            self.matched_below(q, a, n - 1) + if (self.edges@[self.posts@[q].current_applicants@[n
                - 1] as int].a_i as int) < a {
                1int
            } else {
                0int
            }
        }
    }

    /// Nobody is below applicant zero.
    pub proof fn lemma_matched_below_zero(self, q: int, n: int)
        ensures
            self.matched_below(q, 0, n) == 0,
        decreases n,
    {
        if n > 0 {
            self.lemma_matched_below_zero(q, n - 1);
        }
    }

    /// Every assignment slot belongs to some applicant, so counting below
    /// the applicant bound counts them all.
    pub proof fn lemma_matched_below_full(self, q: int, n: int)
        requires
            self.wf(),
            0 <= q < self.posts@.len(),
            0 <= n <= self.posts@[q].current_applicants@.len(),
        ensures
            self.matched_below(q, self.applicants@.len() as int, n) == n,
        decreases n,
    {
        if n > 0 {
            self.lemma_matched_below_full(q, n - 1);
            assert(self.post_wf(q));
            assert(self.posts@[q].current_applicants@[n - 1]
                == self.posts@[q].current_applicants@[n - 1]);
        }
    }

    /// Moving the applicant bound past an applicant not assigned at post
    /// `q` changes no count there.
    pub proof fn lemma_matched_below_step_unmatched(self, q: int, a: int, n: int)
        requires
            self.wf(),
            0 <= q < self.posts@.len(),
            0 <= a < self.applicants@.len(),
            0 <= n <= self.posts@[q].current_applicants@.len(),
            !(self.applicants@[a].current_post matches Some(e) && (self.edges@[e as int].p_i
                as int) == q),
        ensures
            self.matched_below(q, a + 1, n) == self.matched_below(q, a, n),
        decreases n,
    {
        if n > 0 {
            self.lemma_matched_below_step_unmatched(q, a, n - 1);
            assert(self.post_wf(q));
            let e_s = self.posts@[q].current_applicants@[n - 1];
            if (self.edges@[e_s as int].a_i as int) == a {
                assert(self.applicants@[a].current_post == Some(e_s));
            }
        }
    }

    /// Moving the applicant bound past the applicant holding slot `kw` of
    /// post `q` counts exactly that slot once it is in range.
    pub proof fn lemma_matched_below_at(self, q: int, a: int, kw: int, n: int)
        requires
            self.wf(),
            0 <= q < self.posts@.len(),
            0 <= a < self.applicants@.len(),
            0 <= kw < self.posts@[q].current_applicants@.len(),
            self.applicants@[a].current_post == Some(self.posts@[q].current_applicants@[kw]),
            0 <= n <= self.posts@[q].current_applicants@.len(),
        ensures
            self.matched_below(q, a + 1, n) == self.matched_below(q, a, n) + if kw < n {
                1int
            } else {
                0int
            },
        decreases n,
    {
        if n > 0 {
            self.lemma_matched_below_at(q, a, kw, n - 1);
            assert(self.post_wf(q));
            assert(self.appl_wf(a));
            let e = self.posts@[q].current_applicants@[kw];
            let e_s = self.posts@[q].current_applicants@[n - 1];
            assert(self.edges@[e as int].a_i == a);
            if (self.edges@[e_s as int].a_i as int) == a {
                assert(self.applicants@[a].current_post == Some(e_s));
                assert(e_s == e);
                assert(n - 1 == kw);
            }
        }
    }

    /// Moving the applicant bound past an applicant assigned at post `q`
    /// adds exactly one to the count there.
    pub proof fn lemma_matched_below_step_matched(self, q: int, a: int)
        requires
            self.wf(),
            0 <= q < self.posts@.len(),
            0 <= a < self.applicants@.len(),
            self.applicants@[a].current_post matches Some(e) && (self.edges@[e as int].p_i
                as int) == q,
        ensures
            self.matched_below(q, a + 1, self.posts@[q].current_applicants@.len() as int)
                == self.matched_below(q, a, self.posts@[q].current_applicants@.len() as int) + 1,
    {
        let e = self.applicants@[a].current_post->0;
        assert(self.appl_wf(a));
        assert(self.posts@[q].current_applicants@.contains(e));
        let kw = choose|kw: int|
            0 <= kw < self.posts@[q].current_applicants@.len() && self.posts@[q]
                .current_applicants@[kw] == e;
        self.lemma_matched_below_at(q, a, kw, self.posts@[q].current_applicants@.len() as int);
    }

    /// The indices, in input order, of those of the first `n` edges of
    /// batch `items` — numbered upward from `base` — that are incident to
    /// post `q`.
    pub open spec fn post_batch(items: Seq<(usize, usize, W)>, base: int, q: int, n: int) -> Seq<
        usize,
    >
        decreases n,
    {
        if n <= 0 {
            Seq::empty()
        } else {
            let prev = Self::post_batch(items, base, q, n - 1);
            if (items[n - 1].0 as int) == q {
                prev.push((base + n - 1) as usize)
            } else {
                prev
            }
        }
    }

    /// The indices, in input order, of those of the first `n` edges of
    /// batch `items` — numbered upward from `base` — that are incident to
    /// applicant `b`.
    pub open spec fn appl_batch(items: Seq<(usize, usize, W)>, base: int, b: int, n: int) -> Seq<
        usize,
    >
        decreases n,
    {
        if n <= 0 {
            Seq::empty()
        } else {
            let prev = Self::appl_batch(items, base, b, n - 1);
            if (items[n - 1].1 as int) == b {
                prev.push((base + n - 1) as usize)
            } else {
                prev
            }
        }
    }

    /// An edge of the batch incident to applicant `b` appears in the batch
    /// slice for `b`.
    pub proof fn lemma_appl_batch_contains(
        items: Seq<(usize, usize, W)>,
        base: int,
        b: int,
        k: int,
        n: int,
    )
        requires
            0 <= k < n,
            (items[k].1 as int) == b,
        ensures
            Self::appl_batch(items, base, b, n).contains((base + k) as usize),
        decreases n,
    {
        if k == n - 1 {
            assert(Self::appl_batch(items, base, b, n)[Self::appl_batch(items, base, b, n).len()
                - 1] == ((base + k) as usize));
        } else {
            Self::lemma_appl_batch_contains(items, base, b, k, n - 1);
            let prev = Self::appl_batch(items, base, b, n - 1);
            let j = choose|j: int| 0 <= j < prev.len() && prev[j] == ((base + k) as usize);
            assert(Self::appl_batch(items, base, b, n)[j] == ((base + k) as usize));
        }
    }

    /// Everything one graph extension guarantees, relating the state before
    /// (`pre`) and after (`post`) absorbing the batch `items` with assigned
    /// indices `r`: the new edge records and their indices are pinned, both
    /// endpoints' neighbour lists grow by exactly the incident new indices
    /// in input order, each applicant endpoint is marked open to work, and
    /// nothing else — assignments, capacities, payloads, other flags —
    /// changes.
    pub open spec fn extend_spec(
        pre: Self,
        post: Self,
        items: Seq<(usize, usize, W)>,
        r: Seq<usize>,
    ) -> bool {
        &&& post.wf()
        &&& r.len() == items.len()
        &&& post.edges@.len() == pre.edges@.len() + items.len()
        &&& forall|x: int| 0 <= x < pre.edges@.len() ==> post.edges@[x] == pre.edges@[x]
        &&& forall|k: int|
            0 <= k < items.len() ==> r[k] == pre.edges@.len() + k && (post.edges@[r[k] as int].p_i
                == (#[trigger] items[k]).0) && post.edges@[r[k] as int].a_i == items[k].1
                && post.edges@[r[k] as int].weight == items[k].2
        &&& post.posts@.len() == pre.posts@.len()
        &&& post.applicants@.len() == pre.applicants@.len()
        &&& forall|q: int|
            0 <= q < pre.posts@.len() ==> (#[trigger] post.posts@[q]).post == pre.posts@[q].post
                && post.posts@[q].capacity == pre.posts@[q].capacity
                && post.posts@[q].current_applicants@ == pre.posts@[q].current_applicants@
                && post.posts@[q].neighbours@ == pre.posts@[q].neighbours@ + Self::post_batch(
                items,
                pre.edges@.len() as int,
                q,
                items.len() as int,
            )
        &&& forall|b: int|
            0 <= b < pre.applicants@.len() ==> (#[trigger] post.applicants@[b]).applicant
                == pre.applicants@[b].applicant && post.applicants@[b].current_post
                == pre.applicants@[b].current_post && post.applicants@[b].neighbours@
                == pre.applicants@[b].neighbours@ + Self::appl_batch(
                items,
                pre.edges@.len() as int,
                b,
                items.len() as int,
            )
        &&& forall|b: int|
            0 <= b < pre.applicants@.len() && (forall|k: int|
                0 <= k < items.len() ==> (#[trigger] items[k]).1 != b) ==> (
            #[trigger] post.applicants@[b]).open_to_work == pre.applicants@[b].open_to_work
        &&& forall|k: int|
            0 <= k < items.len() ==> post.applicants@[(#[trigger] items[k]).1 as int].open_to_work
    }

    /// Extends the graph with a batch of new edges, given as
    /// `(post, applicant, weight)` triples: each edge record is allocated,
    /// its index is appended to both endpoints' neighbour lists, and each
    /// applicant endpoint is marked as still seeking work. Returns, in
    /// input order, the index assigned to each new edge; everything the
    /// extension does is pinned by [`Self::extend_spec`].
    pub fn extend_edges(&mut self, items: Vec<(usize, usize, W)>) -> (r: Vec<usize>)
        requires
            old(self).wf(),
            forall|k: int|
                0 <= k < items@.len() ==> (#[trigger] items@[k]).0 < old(self).posts@.len()
                    && items@[k].1 < old(self).applicants@.len(),
        ensures
            Self::extend_spec(*old(self), *final(self), items@, r@),
    {
        let ghost pre = *old(self);
        let ghost orig = items@;
        let mut items = items;
        let mut r: Vec<usize> = Vec::new();
        while items.len() > 0
            invariant
                self.wf(),
                r@.len() + items@.len() == orig.len(),
                items@ == orig.subrange(r@.len() as int, orig.len() as int),
                forall|k2: int|
                    0 <= k2 < orig.len() ==> (#[trigger] orig[k2]).0 < pre.posts@.len()
                        && orig[k2].1 < pre.applicants@.len(),
                self.edges@.len() == pre.edges@.len() + r@.len(),
                forall|x: int| 0 <= x < pre.edges@.len() ==> self.edges@[x] == pre.edges@[x],
                forall|k2: int|
                    0 <= k2 < r@.len() ==> r@[k2] == pre.edges@.len() + k2 && (self.edges@[
                    r@[k2] as int].p_i == (#[trigger] orig[k2]).0) && self.edges@[r@[k2] as int]
                        .a_i == orig[k2].1 && self.edges@[r@[k2] as int].weight == orig[k2].2,
                self.posts@.len() == pre.posts@.len(),
                self.applicants@.len() == pre.applicants@.len(),
                forall|q: int|
                    0 <= q < pre.posts@.len() ==> (#[trigger] self.posts@[q]).post
                        == pre.posts@[q].post && self.posts@[q].capacity == pre.posts@[q].capacity
                        && self.posts@[q].current_applicants@ == pre.posts@[q].current_applicants@
                        && self.posts@[q].neighbours@ == pre.posts@[q].neighbours@
                        + Self::post_batch(orig, pre.edges@.len() as int, q, r@.len() as int),
                forall|b: int|
                    0 <= b < pre.applicants@.len() ==> (#[trigger] self.applicants@[b]).applicant
                        == pre.applicants@[b].applicant && self.applicants@[b].current_post
                        == pre.applicants@[b].current_post && self.applicants@[b].neighbours@
                        == pre.applicants@[b].neighbours@ + Self::appl_batch(
                        orig,
                        pre.edges@.len() as int,
                        b,
                        r@.len() as int,
                    ),
                forall|b: int|
                    0 <= b < pre.applicants@.len() && (forall|k2: int|
                        0 <= k2 < r@.len() ==> (#[trigger] orig[k2]).1 != b) ==> (#[trigger] self
                        .applicants@[b]).open_to_work == pre.applicants@[b].open_to_work,
                forall|k2: int|
                    0 <= k2 < r@.len() ==> self.applicants@[(#[trigger] orig[k2]).1 as int].open_to_work,
            decreases items@.len(),
        {
            let ghost k_g = r@.len() as int;
            let ghost r0 = r@;
            let ghost g0 = *self;
            let (p, a, w) = items.remove(0);
            proof {
                assert(orig.subrange(k_g, orig.len() as int)[0] == orig[k_g]);
                assert(items@ =~= orig.subrange(k_g + 1, orig.len() as int));
            }
            let e = self.push_edge(p, a, w);
            r.push(e);
            proof {
                assert(r@[k_g] == e);
                assert(orig[k_g].0 == p && orig[k_g].1 == a && orig[k_g].2 == w);
                assert(self.edges@[e as int].p_i == p);
                assert(self.edges@[e as int].a_i == a);
                assert(self.edges@[e as int].weight == w);
                assert forall|k2: int| 0 <= k2 < k_g implies r@[k2] == pre.edges@.len() + k2 && (
                self.edges@[r@[k2] as int].p_i == orig[k2].0) && self.edges@[r@[k2] as int].a_i
                    == orig[k2].1 && self.edges@[r@[k2] as int].weight == orig[k2].2 by {
                    assert(0 <= k2 < r0.len());
                    assert(orig[k2].0 < pre.posts@.len());
                    assert(r0[k2] == pre.edges@.len() + k2);
                    assert(g0.edges@[r0[k2] as int].p_i == orig[k2].0);
                    assert(g0.edges@[r0[k2] as int].a_i == orig[k2].1);
                    assert(g0.edges@[r0[k2] as int].weight == orig[k2].2);
                    assert(r@[k2] == r0[k2]);
                    assert(r0[k2] < g0.edges@.len());
                    assert(self.edges@[r0[k2] as int] == g0.edges@[r0[k2] as int]);
                }
                let base = pre.edges@.len() as int;
                assert((base + k_g) as usize == e);
                assert forall|q: int|
                    0 <= q < pre.posts@.len() implies (#[trigger] self.posts@[q]).neighbours@
                    == pre.posts@[q].neighbours@ + Self::post_batch(orig, base, q, k_g + 1) by {
                    if q == p as int {
                        assert(Self::post_batch(orig, base, q, k_g + 1) == Self::post_batch(
                            orig,
                            base,
                            q,
                            k_g,
                        ).push(e));
                        assert(self.posts@[q].neighbours@ == g0.posts@[q].neighbours@.push(e));
                        assert(g0.posts@[q].neighbours@ == pre.posts@[q].neighbours@
                            + Self::post_batch(orig, base, q, k_g));
                        assert(pre.posts@[q].neighbours@ + Self::post_batch(orig, base, q, k_g + 1)
                            =~= (pre.posts@[q].neighbours@ + Self::post_batch(
                            orig,
                            base,
                            q,
                            k_g,
                        )).push(e));
                    } else {
                        assert(Self::post_batch(orig, base, q, k_g + 1) == Self::post_batch(
                            orig,
                            base,
                            q,
                            k_g,
                        ));
                        assert(self.posts@[q] == g0.posts@[q]);
                    }
                }
                assert forall|b: int|
                    0 <= b < pre.applicants@.len() implies (
                #[trigger] self.applicants@[b]).neighbours@ == pre.applicants@[b].neighbours@
                    + Self::appl_batch(orig, base, b, k_g + 1) by {
                    if b == a as int {
                        assert(Self::appl_batch(orig, base, b, k_g + 1) == Self::appl_batch(
                            orig,
                            base,
                            b,
                            k_g,
                        ).push(e));
                        assert(self.applicants@[b].neighbours@ == g0.applicants@[b].neighbours@
                            .push(e));
                        assert(g0.applicants@[b].neighbours@ == pre.applicants@[b].neighbours@
                            + Self::appl_batch(orig, base, b, k_g));
                        assert(pre.applicants@[b].neighbours@ + Self::appl_batch(
                            orig,
                            base,
                            b,
                            k_g + 1,
                        ) =~= (pre.applicants@[b].neighbours@ + Self::appl_batch(
                            orig,
                            base,
                            b,
                            k_g,
                        )).push(e));
                    } else {
                        assert(Self::appl_batch(orig, base, b, k_g + 1) == Self::appl_batch(
                            orig,
                            base,
                            b,
                            k_g,
                        ));
                        assert(self.applicants@[b] == g0.applicants@[b]);
                    }
                }
            }
        }
        proof {
            assert forall|k: int|
                0 <= k < orig.len() implies r@[k] == pre.edges@.len() + k && (self.edges@[
            r@[k] as int].p_i == orig[k].0) && self.edges@[r@[k] as int].a_i == orig[k].1
                && self.edges@[r@[k] as int].weight == orig[k].2 by {
                assert(orig[k].0 < pre.posts@.len());
            }
            assert(Self::extend_spec(pre, *self, orig, r@));
        }
        r
    }
}

/// Extending the graph with a batch of new elements. It differs from plain
/// collection extension in that it returns, in input order, the index
/// assigned to each element built, enabling callers to chain further
/// bookkeeping.
pub trait ExtendGraph<A> {
    /// Whether the graph can absorb these items.
    spec fn extend_ok(&self, items: Seq<A>) -> bool;

    /// Everything one extension guarantees, relating the state before
    /// (`pre`) and after (`self`) absorbing `items` with assigned indices
    /// `r`.
    spec fn extend_post(&self, pre: &Self, items: Seq<A>, r: Seq<usize>) -> bool;

    /// Extends the graph with the items, returning their assigned indices
    /// in input order.
    fn extend(&mut self, items: Vec<A>) -> (r: Vec<usize>)
        requires
            old(self).extend_ok(items@),
        ensures
            r@.len() == items@.len(),
            final(self).extend_post(old(self), items@, r@),
    ;

    /// Extends the graph with one item, returning its assigned index: the
    /// extension behaves exactly as absorbing the one-item batch.
    fn extend_one(&mut self, item: A) -> (r: usize)
        requires
            old(self).extend_ok(seq![item]),
        ensures
            final(self).extend_post(old(self), seq![item], seq![r]),
    ;

    /// Hints at how many further items will come; advisory only.
    fn extend_reserve(&mut self, additional: usize);
}

impl<P, A, W> ExtendGraph<(usize, usize, W)> for Bipartite<P, A, W> {
    /// The graph absorbs an edge batch when it is well-formed and every
    /// edge names an existing post and an existing applicant.
    open spec fn extend_ok(&self, items: Seq<(usize, usize, W)>) -> bool {
        &&& self.wf()
        &&& forall|k: int|
            0 <= k < items.len() ==> (#[trigger] items[k]).0 < self.posts@.len() && items[k].1
                < self.applicants@.len()
    }

    /// For the bipartite graph, one extension guarantees exactly
    /// [`Bipartite::extend_spec`].
    open spec fn extend_post(
        &self,
        pre: &Bipartite<P, A, W>,
        items: Seq<(usize, usize, W)>,
        r: Seq<usize>,
    ) -> bool {
        Self::extend_spec(*pre, *self, items, r)
    }

    fn extend(&mut self, items: Vec<(usize, usize, W)>) -> (r: Vec<usize>) {
        self.extend_edges(items)
    }

    fn extend_one(&mut self, item: (usize, usize, W)) -> (r: usize) {
        let ghost it = item;
        let ghost pre = *self;
        let mut items: Vec<(usize, usize, W)> = Vec::new();
        items.push(item);
        proof {
            assert(items@ =~= seq![it]);
        }
        let ids = self.extend_edges(items);
        let r = ids[0];
        proof {
            assert(ids@ =~= seq![r]);
            assert(Self::extend_spec(pre, *self, seq![it], seq![r]));
        }
        r
    }

    fn extend_reserve(&mut self, additional: usize) {
        let _ = additional;
    }
}

impl<P, A> Bipartite<P, A, i64> {
    /// The weight this applicant's current assignment contributes to the
    /// total matched weight: its edge's weight, or nothing when unassigned.
    pub open spec fn assigned_weight(self, a: int) -> int {
        match self.applicants@[a].current_post {
            Some(e) => self.edges@[e as int].weight as int,
            None => 0,
        }
    }

    /// Total matched weight contributed by the first `n` applicants.
    pub open spec fn weight_prefix(self, n: int) -> int
        decreases n,
    {
        if n <= 0 {
            0
        } else {
            self.weight_prefix(n - 1) + self.assigned_weight(n - 1)
        }
    }

    /// Total weight of the current matching: the sum of the weights of all
    /// assigned edges.
    pub open spec fn total_weight(self) -> int {
        self.weight_prefix(self.applicants@.len() as int)
    }

    /// How many of the first `n` applicants are assigned.
    pub open spec fn matched_prefix(self, n: int) -> int
        decreases n,
    {
        if n <= 0 {
            0
        } else {
            self.matched_prefix(n - 1) + if self.applicants@[n - 1].current_post is Some {
                1int
            } else {
                0int
            }
        }
    }

    /// How many applicants are currently assigned.
    pub open spec fn matched_count(self) -> int {
        self.matched_prefix(self.applicants@.len() as int)
    }

    /// If two graph states agree on every applicant's contribution below
    /// `n` except at `i`, their weight prefixes differ by exactly the
    /// change of that one contribution.
    pub proof fn lemma_weight_change_one(g1: Self, g2: Self, i: int, n: int)
        requires
            0 <= i < n,
            forall|b: int| 0 <= b < n && b != i ==> g1.assigned_weight(b) == g2.assigned_weight(b),
        ensures
            g2.weight_prefix(n) == g1.weight_prefix(n) + g2.assigned_weight(i) - g1.assigned_weight(i),
        decreases n,
    {
        if n - 1 > i {
            Self::lemma_weight_change_one(g1, g2, i, n - 1);
        } else {
            Self::lemma_weight_same(g1, g2, n - 1);
        }
    }

    /// If two graph states agree on every applicant's contribution below
    /// `n`, their weight prefixes are equal.
    pub proof fn lemma_weight_same(g1: Self, g2: Self, n: int)
        requires
            forall|b: int| 0 <= b < n ==> g1.assigned_weight(b) == g2.assigned_weight(b),
        ensures
            g2.weight_prefix(n) == g1.weight_prefix(n),
        decreases n,
    {
        if n > 0 {
            Self::lemma_weight_same(g1, g2, n - 1);
        }
    }

    /// If two graph states agree on every applicant's contribution below
    /// `n` except at `i` and `j`, their weight prefixes differ by exactly
    /// the changes of those two contributions.
    pub proof fn lemma_weight_change_two(g1: Self, g2: Self, i: int, j: int, n: int)
        requires
            0 <= i < n,
            0 <= j < n,
            i != j,
            forall|b: int| 0 <= b < n && b != i && b != j ==> g1.assigned_weight(b) == g2.assigned_weight(b),
        ensures
            g2.weight_prefix(n) == g1.weight_prefix(n) + (g2.assigned_weight(i) - g1.assigned_weight(i)) + (
            g2.assigned_weight(j) - g1.assigned_weight(j)),
        decreases n,
    {
        if n - 1 > i && n - 1 > j {
            Self::lemma_weight_change_two(g1, g2, i, j, n - 1);
        } else if n - 1 == i {
            Self::lemma_weight_change_one(g1, g2, j, n - 1);
        } else {
            Self::lemma_weight_change_one(g1, g2, i, n - 1);
        }
    }

    /// Likewise for the matched count: a change at `i` alone moves the
    /// count by that applicant's change.
    pub proof fn lemma_matched_change_one(g1: Self, g2: Self, i: int, n: int)
        requires
            0 <= i < n,
            forall|b: int|
                0 <= b < n && b != i ==> g1.applicants@[b].current_post
                    == g2.applicants@[b].current_post,
        ensures
            g2.matched_prefix(n) == g1.matched_prefix(n) + (
            if g2.applicants@[i].current_post is Some {
                1int
            } else {
                0int
            }) - (if g1.applicants@[i].current_post is Some {
                1int
            } else {
                0int
            }),
        decreases n,
    {
        if n - 1 > i {
            Self::lemma_matched_change_one(g1, g2, i, n - 1);
        } else {
            Self::lemma_matched_same(g1, g2, n - 1);
        }
    }

    /// Likewise for two changed applicants `i` and `j`.
    pub proof fn lemma_matched_change_two(g1: Self, g2: Self, i: int, j: int, n: int)
        requires
            0 <= i < n,
            0 <= j < n,
            i != j,
            forall|b: int|
                0 <= b < n && b != i && b != j ==> g1.applicants@[b].current_post
                    == g2.applicants@[b].current_post,
        ensures
            g2.matched_prefix(n) == g1.matched_prefix(n) + (
            if g2.applicants@[i].current_post is Some {
                1int
            } else {
                0int
            }) - (if g1.applicants@[i].current_post is Some {
                1int
            } else {
                0int
            }) + (if g2.applicants@[j].current_post is Some {
                1int
            } else {
                0int
            }) - (if g1.applicants@[j].current_post is Some {
                1int
            } else {
                0int
            }),
        decreases n,
    {
        if n - 1 > i && n - 1 > j {
            Self::lemma_matched_change_two(g1, g2, i, j, n - 1);
        } else if n - 1 == i {
            Self::lemma_matched_change_one(g1, g2, j, n - 1);
        } else {
            Self::lemma_matched_change_one(g1, g2, i, n - 1);
        }
    }

    /// Graph states that agree on every assignment below `n` have the same
    /// matched count there.
    pub proof fn lemma_matched_same(g1: Self, g2: Self, n: int)
        requires
            forall|b: int|
                0 <= b < n ==> g1.applicants@[b].current_post == g2.applicants@[b].current_post,
        ensures
            g2.matched_prefix(n) == g1.matched_prefix(n),
        decreases n,
    {
        if n > 0 {
            Self::lemma_matched_same(g1, g2, n - 1);
        }
    }

    /// Overwrites one applicant's assignment state, leaving everything else
    /// in place. A raw field update: callers re-establish well-formedness.
    fn set_assignment(&mut self, a: usize, cp: Option<usize>, open: bool)
        requires
            a < old(self).applicants@.len(),
        ensures
            final(self).posts@ == old(self).posts@,
            final(self).edges@ == old(self).edges@,
            final(self).applicants@.len() == old(self).applicants@.len(),
            forall|b: int|
                0 <= b < old(self).applicants@.len() && b != a ==> final(self).applicants@[b]
                    == old(self).applicants@[b],
            final(self).applicants@[a as int].applicant == old(self).applicants@[a as int].applicant,
            final(self).applicants@[a as int].neighbours == old(self).applicants@[a as int].neighbours,
            final(self).applicants@[a as int].current_post == cp,
            final(self).applicants@[a as int].open_to_work == open,
    {
        let mut node = self.applicants.remove(a);
        node.current_post = cp;
        node.open_to_work = open;
        self.applicants.insert(a, node);
        proof {
            assert(self.applicants@ =~= old(self).applicants@.update(
                a as int,
                self.applicants@[a as int],
            ));
        }
    }

    /// Overwrites one assignment slot of a post, leaving everything else in
    /// place. A raw field update: callers re-establish well-formedness.
    fn set_post_slot(&mut self, p: usize, j: usize, e: usize)
        requires
            p < old(self).posts@.len(),
            j < old(self).posts@[p as int].current_applicants@.len(),
        ensures
            final(self).applicants@ == old(self).applicants@,
            final(self).edges@ == old(self).edges@,
            final(self).posts@.len() == old(self).posts@.len(),
            forall|q: int|
                0 <= q < old(self).posts@.len() && q != p ==> final(self).posts@[q] == old(self).posts@[q],
            final(self).posts@[p as int].post == old(self).posts@[p as int].post,
            final(self).posts@[p as int].neighbours == old(self).posts@[p as int].neighbours,
            final(self).posts@[p as int].capacity == old(self).posts@[p as int].capacity,
            final(self).posts@[p as int].current_applicants@ == old(self).posts@[p as int].current_applicants@.update(j as int, e),
    {
        let mut node = self.posts.remove(p);
        node.current_applicants[j] = e;
        self.posts.insert(p, node);
        proof {
            assert(self.posts@ =~= old(self).posts@.update(p as int, self.posts@[p as int]));
        }
    }

    /// Appends an assignment slot to a post, leaving everything else in
    /// place. A raw field update: callers re-establish well-formedness.
    fn push_post_slot(&mut self, p: usize, e: usize)
        requires
            p < old(self).posts@.len(),
        ensures
            final(self).applicants@ == old(self).applicants@,
            final(self).edges@ == old(self).edges@,
            final(self).posts@.len() == old(self).posts@.len(),
            forall|q: int|
                0 <= q < old(self).posts@.len() && q != p ==> final(self).posts@[q] == old(self).posts@[q],
            final(self).posts@[p as int].post == old(self).posts@[p as int].post,
            final(self).posts@[p as int].neighbours == old(self).posts@[p as int].neighbours,
            final(self).posts@[p as int].capacity == old(self).posts@[p as int].capacity,
            final(self).posts@[p as int].current_applicants@ == old(self).posts@[p as int].current_applicants@.push(e),
    {
        let mut node = self.posts.remove(p);
        node.current_applicants.push(e);
        self.posts.insert(p, node);
        proof {
            assert(self.posts@ =~= old(self).posts@.update(p as int, self.posts@[p as int]));
        }
    }

    /// Fills an open slot: assigns the unassigned applicant of edge `e` to
    /// the post of `e`, which must not be at capacity. The total matched
    /// weight changes by exactly the weight of `e` and the matched count
    /// grows by one.
    pub fn assign_fill(&mut self, a: usize, e: usize)
        requires
            old(self).wf(),
            old(self).edge_wf(e as int),
            old(self).edges@[e as int].a_i == a,
            old(self).applicants@[a as int].current_post is None,
            old(self).posts@[old(self).edges@[e as int].p_i as int].current_applicants@.len() < old(self).posts@[old(self).edges@[e as int].p_i as int].capacity,
        ensures
            final(self).wf(),
            final(self).edges@ == old(self).edges@,
            final(self).posts@.len() == old(self).posts@.len(),
            final(self).applicants@.len() == old(self).applicants@.len(),
            final(self).applicants@[a as int].current_post == Some(e),
            !final(self).applicants@[a as int].open_to_work,
            final(self).applicants@[a as int].applicant == old(self).applicants@[a as int].applicant,
            final(self).applicants@[a as int].neighbours == old(self).applicants@[a as int].neighbours,
            forall|b: int|
                0 <= b < old(self).applicants@.len() && b != a ==> final(self).applicants@[b]
                    == old(self).applicants@[b],
            forall|q: int|
                0 <= q < old(self).posts@.len() && q != old(self).edges@[e as int].p_i ==> final(self).posts@[q] == old(self).posts@[q],
            ({
                let p = old(self).edges@[e as int].p_i as int;
                final(self).posts@[p].post == old(self).posts@[p].post && final(self).posts@[p]
                    .neighbours == old(self).posts@[p].neighbours && final(self).posts@[p].capacity
                    == old(self).posts@[p].capacity && final(self).posts@[p].current_applicants@
                    == old(self).posts@[p].current_applicants@.push(e)
            }),
            final(self).total_weight() == old(self).total_weight() + old(self).edges@[e as int].weight,
            final(self).matched_count() == old(self).matched_count() + 1,
    {
        let p = self.edges[e].p_i;
        self.push_post_slot(p, e);
        self.set_assignment(a, Some(e), false);
        proof {
            let pre = *old(self);
            let post = *self;
            let pi = pre.edges@[e as int].p_i as int;
            assert forall|x: int| 0 <= x < post.edges@.len() implies post.edge_wf(x) by {
                assert(pre.edge_wf(x));
            }
            assert forall|b: int| 0 <= b < post.applicants@.len() implies post.appl_wf(b) by {
                assert(pre.appl_wf(b));
                if b == a {
                    assert(post.posts@[pi].current_applicants@.last() == e);
                    assert(post.posts@[pi].current_applicants@.contains(e));
                } else {
                    match post.applicants@[b].current_post {
                        Some(x) => {
                            let q = pre.edges@[x as int].p_i as int;
                            assert(pre.posts@[q].current_applicants@.contains(x));
                            let jx = choose|jx: int|
                                0 <= jx < pre.posts@[q].current_applicants@.len()
                                    && pre.posts@[q].current_applicants@[jx] == x;
                            if q == pi {
                                assert(post.posts@[q].current_applicants@[jx] == x);
                            } else {
                                assert(post.posts@[q] == pre.posts@[q]);
                            }
                            assert(post.posts@[q].current_applicants@.contains(x));
                        },
                        None => {},
                    }
                }
            }
            assert forall|q: int| 0 <= q < post.posts@.len() implies post.post_wf(q) by {
                assert(pre.post_wf(q));
                if q == pi {
                    let slots = post.posts@[q].current_applicants@;
                    assert forall|j: int| 0 <= j < slots.len() implies {
                        let x = #[trigger] slots[j];
                        post.edge_wf(x as int) && post.edges@[x as int].p_i == q
                            && post.applicants@[post.edges@[x as int].a_i as int].current_post
                            == Some(x)
                    } by {
                        if j < slots.len() - 1 {
                            assert(slots[j] == pre.posts@[q].current_applicants@[j]);
                            assert(pre.edges@[slots[j] as int].a_i != a) by {
                                if pre.edges@[slots[j] as int].a_i == a {
                                    assert(pre.applicants@[a as int].current_post == Some(
                                        slots[j],
                                    ));
                                }
                            }
                        } else {
                            assert(slots[j] == e);
                        }
                    }
                    assert forall|j1: int, j2: int|
                        0 <= j1 < j2 < slots.len() implies slots[j1] != slots[j2] by {
                        if j2 == slots.len() - 1 {
                            assert(slots[j1] == pre.posts@[q].current_applicants@[j1]);
                            if slots[j1] == e {
                                assert(pre.applicants@[a as int].current_post == Some(e));
                            }
                        }
                    }
                }
            }
            assert forall|b: int|
                0 <= b < pre.applicants@.len() && b != a implies pre.assigned_weight(b)
                == post.assigned_weight(b) by {}
            Self::lemma_weight_change_one(pre, post, a as int, pre.applicants@.len() as int);
            Self::lemma_matched_change_one(pre, post, a as int, pre.applicants@.len() as int);
        }
    }

    /// The augmenting/displacement step: evicts the incumbent in slot `j`
    /// of the post of edge `e` — which must be strictly lighter than `e` —
    /// and assigns the unassigned applicant of `e` in its place. The
    /// evicted applicant becomes open to work again and is returned. The
    /// total matched weight strictly increases; the matched count does not
    /// change.
    pub fn displace(&mut self, a: usize, e: usize, j: usize) -> (evicted: usize)
        requires
            old(self).wf(),
            old(self).edge_wf(e as int),
            old(self).edges@[e as int].a_i == a,
            old(self).applicants@[a as int].current_post is None,
            j < old(self).posts@[old(self).edges@[e as int].p_i as int].current_applicants@.len(),
            ({
                let p = old(self).edges@[e as int].p_i as int;
                let e_old = old(self).posts@[p].current_applicants@[j as int];
                old(self).edges@[e_old as int].weight < old(self).edges@[e as int].weight
            }),
        ensures
            final(self).wf(),
            final(self).edges@ == old(self).edges@,
            final(self).posts@.len() == old(self).posts@.len(),
            final(self).applicants@.len() == old(self).applicants@.len(),
            evicted == old(self).edges@[old(self).posts@[old(self).edges@[e as int].p_i as int]
                .current_applicants@[j as int] as int].a_i,
            evicted < old(self).applicants@.len(),
            evicted != a,
            final(self).applicants@[a as int].current_post == Some(e),
            !final(self).applicants@[a as int].open_to_work,
            final(self).applicants@[evicted as int].current_post is None,
            final(self).applicants@[evicted as int].open_to_work,
            forall|b: int|
                0 <= b < old(self).applicants@.len() && b != a && b != evicted ==> final(self).applicants@[b] == old(self).applicants@[b],
            forall|b: int|
                0 <= b < old(self).applicants@.len() ==> (#[trigger] final(self).applicants@[b])
                    .applicant == old(self).applicants@[b].applicant && final(self).applicants@[b]
                    .neighbours == old(self).applicants@[b].neighbours,
            forall|q: int|
                0 <= q < old(self).posts@.len() && q != old(self).edges@[e as int].p_i ==> final(self).posts@[q] == old(self).posts@[q],
            ({
                let p = old(self).edges@[e as int].p_i as int;
                final(self).posts@[p].post == old(self).posts@[p].post && final(self).posts@[p]
                    .neighbours == old(self).posts@[p].neighbours && final(self).posts@[p].capacity
                    == old(self).posts@[p].capacity && final(self).posts@[p].current_applicants@
                    == old(self).posts@[p].current_applicants@.update(j as int, e)
            }),
            final(self).total_weight() == old(self).total_weight() + old(self).edges@[e as int].weight - old(self).edges@[old(self).posts@[old(self).edges@[
                e as int
            ].p_i as int].current_applicants@[j as int] as int].weight,
            final(self).total_weight() > old(self).total_weight(),
            final(self).matched_count() == old(self).matched_count(),
    {
        let p = self.edges[e].p_i;
        let e_old = self.posts[p].current_applicants[j];
        proof {
            assert(old(self).post_wf(p as int));
            assert(old(self).posts@[p as int].current_applicants@[j as int] == e_old);
        }
        let a_old = self.edges[e_old].a_i;
        proof {
            assert(old(self).applicants@[a_old as int].current_post == Some(e_old));
            assert(a_old != a);
        }
        self.set_assignment(a_old, None, true);
        self.set_post_slot(p, j, e);
        self.set_assignment(a, Some(e), false);
        proof {
            let pre = *old(self);
            let post = *self;
            let pi = p as int;
            let slots0 = pre.posts@[pi].current_applicants@;
            let slots = post.posts@[pi].current_applicants@;
            assert(slots == slots0.update(j as int, e));
            assert forall|x: int| 0 <= x < post.edges@.len() implies post.edge_wf(x) by {
                assert(pre.edge_wf(x));
            }
            assert forall|b: int| 0 <= b < post.applicants@.len() implies post.appl_wf(b) by {
                assert(pre.appl_wf(b));
                if b == a {
                    assert(slots[j as int] == e);
                    assert(slots.contains(e));
                } else if b == a_old {
                } else {
                    match post.applicants@[b].current_post {
                        Some(x) => {
                            let q = pre.edges@[x as int].p_i as int;
                            assert(pre.posts@[q].current_applicants@.contains(x));
                            let jx = choose|jx: int|
                                0 <= jx < pre.posts@[q].current_applicants@.len()
                                    && pre.posts@[q].current_applicants@[jx] == x;
                            if q == pi {
                                assert(pre.post_wf(q));
                                assert(jx != j as int) by {
                                    if jx == j as int {
                                        assert(x == e_old);
                                        assert(pre.edges@[x as int].a_i == b);
                                        assert(b == a_old);
                                    }
                                }
                                assert(slots[jx] == x);
                            } else {
                                assert(post.posts@[q] == pre.posts@[q]);
                            }
                            assert(post.posts@[q].current_applicants@.contains(x));
                        },
                        None => {},
                    }
                }
            }
            assert forall|q: int| 0 <= q < post.posts@.len() implies post.post_wf(q) by {
                assert(pre.post_wf(q));
                if q == pi {
                    assert forall|j2: int| 0 <= j2 < slots.len() implies {
                        let x = #[trigger] slots[j2];
                        post.edge_wf(x as int) && post.edges@[x as int].p_i == q
                            && post.applicants@[post.edges@[x as int].a_i as int].current_post
                            == Some(x)
                    } by {
                        if j2 == j as int {
                            assert(slots[j2] == e);
                        } else {
                            assert(slots[j2] == slots0[j2]);
                            let bx = pre.edges@[slots0[j2] as int].a_i as int;
                            assert(pre.applicants@[bx].current_post == Some(slots0[j2]));
                            assert(bx != a as int) by {
                                if bx == a as int {
                                    assert(pre.applicants@[a as int].current_post is None);
                                }
                            }
                            assert(bx != a_old as int) by {
                                if bx == a_old as int {
                                    assert(pre.applicants@[a_old as int].current_post == Some(
                                        e_old,
                                    ));
                                    assert(slots0[j2] == e_old);
                                    assert(slots0[j as int] == e_old);
                                }
                            }
                            assert(post.applicants@[bx] == pre.applicants@[bx]);
                        }
                    }
                    assert forall|j1: int, j2: int|
                        0 <= j1 < j2 < slots.len() implies slots[j1] != slots[j2] by {
                        if j1 == j as int {
                            assert(slots[j2] == slots0[j2]);
                            if slots0[j2] == e {
                                assert(pre.applicants@[a as int].current_post == Some(e));
                            }
                        } else if j2 == j as int {
                            assert(slots[j1] == slots0[j1]);
                            if slots0[j1] == e {
                                assert(pre.applicants@[a as int].current_post == Some(e));
                            }
                        } else {
                            assert(slots[j1] == slots0[j1] && slots[j2] == slots0[j2]);
                        }
                    }
                } else {
                    let qslots = post.posts@[q].current_applicants@;
                    assert(qslots == pre.posts@[q].current_applicants@);
                    assert forall|j2: int| 0 <= j2 < qslots.len() implies {
                        let x = #[trigger] qslots[j2];
                        post.edge_wf(x as int) && post.edges@[x as int].p_i == q
                            && post.applicants@[post.edges@[x as int].a_i as int].current_post
                            == Some(x)
                    } by {
                        let x = qslots[j2];
                        let bx = pre.edges@[x as int].a_i as int;
                        assert(pre.applicants@[bx].current_post == Some(x));
                        assert(bx != a as int) by {
                            if bx == a as int {
                                assert(pre.applicants@[a as int].current_post is None);
                            }
                        }
                        assert(bx != a_old as int) by {
                            if bx == a_old as int {
                                assert(x == e_old);
                                assert(pre.edges@[e_old as int].p_i == pi);
                            }
                        }
                        assert(post.applicants@[bx] == pre.applicants@[bx]);
                    }
                }
            }
            assert forall|b: int|
                0 <= b < pre.applicants@.len() && b != a && b != a_old implies pre.assigned_weight(b) == post.assigned_weight(b) by {}
            Self::lemma_weight_change_two(
                pre,
                post,
                a as int,
                a_old as int,
                pre.applicants@.len() as int,
            );
            assert(post.assigned_weight(a as int) == pre.edges@[e as int].weight);
            assert(pre.assigned_weight(a_old as int) == pre.edges@[e_old as int].weight);
            Self::lemma_matched_change_two(
                pre,
                post,
                a as int,
                a_old as int,
                pre.applicants@.len() as int,
            );
        }
        a_old
    }

    /// Edge `e` leads to a post with an open slot.
    pub open spec fn fill_ok(self, e: int) -> bool {
        &&& self.edge_wf(e)
        &&& self.posts@[self.edges@[e].p_i as int].current_applicants@.len() < self.posts@[
            self.edges@[e].p_i as int
        ].capacity
    }

    /// The heaviest edge with an open slot among the first `n` neighbour
    /// edges of applicant `a`; the first seen wins ties.
    pub open spec fn best_fill(self, a: int, n: int) -> Option<int>
        decreases n,
    {
        if n <= 0 {
            None
        } else {
            let prev = self.best_fill(a, n - 1);
            let e = self.applicants@[a].neighbours@[n - 1] as int;
            if !self.fill_ok(e) {
                prev
            } else {
                match prev {
                    None => Some(e),
                    Some(b) => if self.edges@[e].weight > self.edges@[b].weight {
                        Some(e)
                    } else {
                        prev
                    },
                }
            }
        }
    }

    /// The slot of the lightest incumbent among the first `n` assignment
    /// slots of post `p`; the first seen wins ties.
    pub open spec fn weakest_slot_spec(self, p: int, n: int) -> Option<int>
        decreases n,
    {
        if n <= 0 {
            None
        } else {
            let prev = self.weakest_slot_spec(p, n - 1);
            let slots = self.posts@[p].current_applicants@;
            match prev {
                None => Some(n - 1),
                Some(i) => if self.edges@[slots[n - 1] as int].weight < self.edges@[
                    slots[i] as int
                ].weight {
                    Some(n - 1)
                } else {
                    prev
                },
            }
        }
    }

    /// The slot [`Self::weakest_slot_spec`] picks holds a minimal-weight
    /// incumbent among the first `n` slots of post `p`, and exists whenever
    /// there is a slot.
    pub proof fn lemma_weakest_slot_minimal(g: Self, p: int, n: int)
        ensures
            g.weakest_slot_spec(p, n) matches Some(j) ==> 0 <= j < n,
            g.weakest_slot_spec(p, n) matches Some(j) ==> forall|k: int|
                0 <= k < n ==> g.edges@[g.posts@[p].current_applicants@[j] as int].weight
                    <= g.edges@[(#[trigger] g.posts@[p].current_applicants@[k]) as int].weight,
            n > 0 ==> g.weakest_slot_spec(p, n) is Some,
        decreases n,
    {
        if n > 0 {
            Self::lemma_weakest_slot_minimal(g, p, n - 1);
        }
    }

    /// Edge `e` allows a displacement: its post is saturated and its
    /// weakest incumbent is strictly lighter than `e`.
    pub open spec fn displace_ok(self, e: int) -> bool {
        &&& self.edge_wf(e)
        &&& ({
            let p = self.edges@[e].p_i as int;
            let slots = self.posts@[p].current_applicants@;
            &&& slots.len() >= self.posts@[p].capacity
            &&& match self.weakest_slot_spec(p, slots.len() as int) {
                Some(jj) => self.edges@[slots[jj] as int].weight < self.edges@[e].weight,
                None => false,
            }
        })
    }

    /// The heaviest displacement-enabling edge among the first `n`
    /// neighbour edges of applicant `a`; the first seen wins ties.
    pub open spec fn best_displace(self, a: int, n: int) -> Option<int>
        decreases n,
    {
        if n <= 0 {
            None
        } else {
            let prev = self.best_displace(a, n - 1);
            let e = self.applicants@[a].neighbours@[n - 1] as int;
            if !self.displace_ok(e) {
                prev
            } else {
                match prev {
                    None => Some(e),
                    Some(b) => if self.edges@[e].weight > self.edges@[b].weight {
                        Some(e)
                    } else {
                        prev
                    },
                }
            }
        }
    }

    /// An executable edge index as the mathematical option it stands for.
    pub open spec fn opt_edge(r: Option<usize>) -> Option<int> {
        match r {
            Some(e) => Some(e as int),
            None => None,
        }
    }

    /// Finds the best available edge of `a` to a post with an open slot:
    /// the highest net weight wins, the first-seen edge on ties.
    fn best_fill_edge(&self, a: usize) -> (r: Option<usize>)
        requires
            self.wf(),
            a < self.applicants@.len(),
        ensures
            Self::opt_edge(r) == self.best_fill(
                a as int,
                self.applicants@[a as int].neighbours@.len() as int,
            ),
            r matches Some(e) ==> self.fill_ok(e as int) && self.edges@[e as int].a_i == a,
    {
        let n = self.applicants[a].neighbours.len();
        let mut best: Option<usize> = None;
        let mut i: usize = 0;
        while i < n
            invariant
                self.wf(),
                a < self.applicants@.len(),
                n == self.applicants@[a as int].neighbours@.len(),
                i <= n,
                Self::opt_edge(best) == self.best_fill(a as int, i as int),
                best matches Some(b) ==> self.fill_ok(b as int) && self.edges@[b as int].a_i == a,
            decreases n - i,
        {
            let e = self.applicants[a].neighbours[i];
            proof {
                assert(self.appl_wf(a as int));
            }
            let p = self.edges[e].p_i;
            if self.posts[p].current_applicants.len() < self.posts[p].capacity {
                match best {
                    None => { best = Some(e); },
                    Some(b) => if self.edges[e].weight > self.edges[b].weight {
                        best = Some(e);
                    },
                }
            }
            i = i + 1;
        }
        best
    }

    /// Finds the slot of the lightest incumbent of post `p`: the lowest
    /// weight wins, the first-seen slot on ties.
    fn weakest_slot(&self, p: usize) -> (r: Option<usize>)
        requires
            self.wf(),
            p < self.posts@.len(),
        ensures
            Self::opt_edge(r) == self.weakest_slot_spec(
                p as int,
                self.posts@[p as int].current_applicants@.len() as int,
            ),
            r matches Some(j) ==> j < self.posts@[p as int].current_applicants@.len(),
    {
        let n = self.posts[p].current_applicants.len();
        let mut best: Option<usize> = None;
        let mut i: usize = 0;
        while i < n
            invariant
                self.wf(),
                p < self.posts@.len(),
                n == self.posts@[p as int].current_applicants@.len(),
                i <= n,
                Self::opt_edge(best) == self.weakest_slot_spec(p as int, i as int),
                best matches Some(b) ==> b < i,
            decreases n - i,
        {
            proof {
                assert(self.post_wf(p as int));
            }
            match best {
                None => { best = Some(i); },
                Some(b) => {
                    let ei = self.posts[p].current_applicants[i];
                    let eb = self.posts[p].current_applicants[b];
                    if self.edges[ei].weight < self.edges[eb].weight {
                        best = Some(i);
                    }
                },
            }
            i = i + 1;
        }
        best
    }

    /// Finds the best displacement available to `a`: the heaviest edge to a
    /// saturated post whose weakest incumbent is strictly lighter, with the
    /// first-seen edge winning ties. Returns the edge and the incumbent's
    /// slot.
    fn best_displace_edge(&self, a: usize) -> (r: Option<(usize, usize)>)
        requires
            self.wf(),
            a < self.applicants@.len(),
        ensures
            match r {
                Some(pair) => {
                    let e = pair.0 as int;
                    let p = self.edges@[e].p_i as int;
                    &&& self.best_displace(
                        a as int,
                        self.applicants@[a as int].neighbours@.len() as int,
                    ) == Some(e)
                    &&& self.displace_ok(e)
                    &&& self.edges@[e].a_i == a
                    &&& (pair.1 as int) < self.posts@[p].current_applicants@.len()
                    &&& self.edges@[self.posts@[p].current_applicants@[pair.1 as int] as int].weight
                        < self.edges@[e].weight
                    &&& forall|k: int|
                        0 <= k < self.posts@[p].current_applicants@.len() ==> self.edges@[
                            self.posts@[p].current_applicants@[pair.1 as int] as int
                        ].weight <= self.edges@[(#[trigger] self.posts@[p].current_applicants@[
                            k
                        ]) as int].weight
                },
                None => self.best_displace(
                    a as int,
                    self.applicants@[a as int].neighbours@.len() as int,
                ) is None,
            },
    {
        let n = self.applicants[a].neighbours.len();
        let mut best: Option<(usize, usize)> = None;
        let mut i: usize = 0;
        while i < n
            invariant
                self.wf(),
                a < self.applicants@.len(),
                n == self.applicants@[a as int].neighbours@.len(),
                i <= n,
                match best {
                    Some(pair) => {
                        let e = pair.0 as int;
                        let p = self.edges@[e].p_i as int;
                        &&& self.best_displace(a as int, i as int) == Some(e)
                        &&& self.displace_ok(e)
                        &&& self.edges@[e].a_i == a
                        &&& (pair.1 as int) < self.posts@[p].current_applicants@.len()
                        &&& self.edges@[self.posts@[p].current_applicants@[
                            pair.1 as int
                        ] as int].weight < self.edges@[e].weight
                        &&& forall|k: int|
                            0 <= k < self.posts@[p].current_applicants@.len() ==> self.edges@[
                                self.posts@[p].current_applicants@[pair.1 as int] as int
                            ].weight <= self.edges@[(#[trigger] self.posts@[p]
                                .current_applicants@[k]) as int].weight
                    },
                    None => self.best_displace(a as int, i as int) is None,
                },
            decreases n - i,
        {
            let e = self.applicants[a].neighbours[i];
            proof {
                assert(self.appl_wf(a as int));
            }
            let p = self.edges[e].p_i;
            if self.posts[p].current_applicants.len() >= self.posts[p].capacity {
                match self.weakest_slot(p) {
                    Some(jj) => {
                        let e_old = self.posts[p].current_applicants[jj];
                        proof {
                            assert(self.post_wf(p as int));
                            assert(self.posts@[p as int].current_applicants@[jj as int] == e_old);
                            Self::lemma_weakest_slot_minimal(
                                *self,
                                p as int,
                                self.posts@[p as int].current_applicants@.len() as int,
                            );
                        }
                        if self.edges[e_old].weight < self.edges[e].weight {
                            match best {
                                None => { best = Some((e, jj)); },
                                Some(pair) => if self.edges[e].weight > self.edges[pair.0].weight {
                                    best = Some((e, jj));
                                },
                            }
                        }
                    },
                    None => {},
                }
            }
            i = i + 1;
        }
        best
    }

    /// Runs the matching pass: repeatedly takes an applicant that is open
    /// to work and unassigned, fills its best open slot, or displaces a
    /// strictly weaker incumbent (who becomes open to work again and is
    /// reconsidered); an applicant with no option left stays open but is
    /// set aside. Once an edge is displaced against, its post stays at
    /// capacity with every incumbent at least as heavy, so that edge can
    /// never be matched again: the pass provably finishes its whole work
    /// queue within one visit per applicant plus one revisit per
    /// displacement, and the displacement steps are bounded by the number
    /// of edges. The number of assigned applicants never shrinks, and the
    /// graph's structure and weights are untouched.
    pub fn run_matching(&mut self)
        requires
            old(self).wf(),
            old(self).edges@.len() + old(self).applicants@.len() < usize::MAX,
        ensures
            final(self).wf(),
            final(self).edges@ == old(self).edges@,
            final(self).posts@.len() == old(self).posts@.len(),
            final(self).applicants@.len() == old(self).applicants@.len(),
            forall|q: int|
                0 <= q < old(self).posts@.len() ==> (#[trigger] final(self).posts@[q]).post == old(self).posts@[q].post && final(self).posts@[q].neighbours == old(self).posts@[q].neighbours && final(self).posts@[q].capacity == old(self).posts@[q].capacity,
            forall|b: int|
                0 <= b < old(self).applicants@.len() ==> (#[trigger] final(self).applicants@[b]).applicant == old(self).applicants@[b].applicant && final(self).applicants@[b].neighbours == old(self).applicants@[b].neighbours,
            final(self).matched_count() >= old(self).matched_count(),
            forall|b: int|
                0 <= b < old(self).applicants@.len() && (#[trigger] final(self).applicants@[b])
                    .open_to_work && final(self).applicants@[b].current_post is None ==> final(self).no_option(b),
            forall|b: int|
                0 <= b < old(self).applicants@.len() && (#[trigger] final(self).applicants@[b])
                    .current_post is None && !final(self).applicants@[b].open_to_work ==> final(self).applicants@[b] == old(self).applicants@[b],
    {
        let ghost g0 = *old(self);
        let mut queue: Vec<usize> = Vec::new();
        let mut a0: usize = 0;
        while a0 < self.applicants.len()
            invariant
                *self == g0,
                a0 <= self.applicants@.len(),
                queue@.len() <= a0,
                forall|k: int| 0 <= k < queue@.len() ==> (#[trigger] queue@[k]) < g0.applicants@.len(),
                forall|b: int|
                    0 <= b < a0 && (#[trigger] self.applicants@[b]).open_to_work
                        ==> queue@.contains(b as usize),
            decreases self.applicants@.len() - a0,
        {
            let ghost qq = queue@;
            if self.applicants[a0].open_to_work {
                queue.push(a0);
            }
            proof {
                assert forall|b: int|
                    0 <= b < a0 + 1 && (#[trigger] self.applicants@[b]).open_to_work
                        implies queue@.contains(b as usize) by {
                    if b == a0 as int {
                        assert(queue@[queue@.len() - 1] == a0);
                        assert(queue@.contains(b as usize));
                    } else {
                        assert(qq.contains(b as usize));
                        let i = choose|i: int| 0 <= i < qq.len() && qq[i] == (b as usize);
                        assert(queue@[i] == (b as usize));
                        assert(queue@.contains(b as usize));
                    }
                }
            }
            a0 = a0 + 1;
        }
        let mut fuel: usize = self.edges.len() + self.applicants.len();
        let ghost mut evicted_edges: Set<int> = Set::empty();
        let ghost mut rejected: Set<int> = Set::empty();
        let ghost mut pops: int = 0;
        while queue.len() > 0 && fuel > 0
            invariant
                self.wf(),
                self.edges@ == g0.edges@,
                self.posts@.len() == g0.posts@.len(),
                self.applicants@.len() == g0.applicants@.len(),
                forall|q: int|
                    0 <= q < g0.posts@.len() ==> (#[trigger] self.posts@[q]).post
                        == g0.posts@[q].post && self.posts@[q].neighbours == g0.posts@[q].neighbours
                        && self.posts@[q].capacity == g0.posts@[q].capacity,
                forall|b: int|
                    0 <= b < g0.applicants@.len() ==> (#[trigger] self.applicants@[b]).applicant
                        == g0.applicants@[b].applicant && self.applicants@[b].neighbours
                        == g0.applicants@[b].neighbours,
                self.matched_count() >= g0.matched_count(),
                forall|k: int| 0 <= k < queue@.len() ==> (#[trigger] queue@[k]) < g0.applicants@.len(),
                g0.edges@.len() + g0.applicants@.len() < usize::MAX,
                evicted_edges.finite(),
                forall|x: int| #[trigger] evicted_edges.contains(x) ==> 0 <= x < self.edges@.len(),
                forall|x: int| #[trigger] evicted_edges.contains(x) ==> self.evicted_stays_out(x),
                pops >= 0,
                pops + queue@.len() <= g0.applicants@.len() + evicted_edges.len(),
                fuel as int == g0.edges@.len() + g0.applicants@.len() - pops,
                forall|x: int| #[trigger] rejected.contains(x) ==> 0 <= x
                    < self.applicants@.len() && self.applicants@[x].current_post is None
                    && self.no_option(x),
                forall|b: int|
                    0 <= b < self.applicants@.len() && (#[trigger] self.applicants@[b])
                        .open_to_work && self.applicants@[b].current_post is None
                        ==> queue@.contains(b as usize) || rejected.contains(b),
                forall|b: int|
                    0 <= b < self.applicants@.len() && (#[trigger] self.applicants@[b])
                        .current_post is None && !self.applicants@[b].open_to_work
                        ==> self.applicants@[b] == g0.applicants@[b],
            decreases fuel,
        {
            fuel = fuel - 1;
            let ghost q0 = queue@;
            let a = queue.pop().unwrap();
            proof {
                pops = pops + 1;
            }
            if self.applicants[a].current_post.is_none() {
                match self.best_fill_edge(a) {
                    Some(e) => {
                        let ghost gpre = *self;
                        self.assign_fill(a, e);
                        proof {
                            let pf = gpre.edges@[e as int].p_i as int;
                            assert forall|x: int|
                                evicted_edges.contains(x) implies self.evicted_stays_out(x) by {
                                assert(gpre.evicted_stays_out(x));
                                let px = gpre.edges@[x].p_i as int;
                                assert(gpre.edge_wf(x));
                                assert(px != pf) by {
                                    if px == pf {
                                        assert(gpre.posts@[pf].current_applicants@.len()
                                            >= gpre.posts@[pf].capacity);
                                        assert(gpre.fill_ok(e as int));
                                    }
                                }
                                assert(self.posts@[px] == gpre.posts@[px]);
                            }
                            assert(!rejected.contains(a as int)) by {
                                if rejected.contains(a as int) {
                                    let nb_len = gpre.applicants@[a as int].neighbours@.len()
                                        as int;
                                    Self::lemma_best_fill_some(gpre, a as int, nb_len);
                                    let j = choose|j: int|
                                        0 <= j < nb_len && ((
                                        #[trigger] gpre.applicants@[a as int].neighbours@[
                                            j
                                        ]) as int) == e as int;
                                    assert(gpre.edge_dead(e as int));
                                    assert(gpre.appl_wf(a as int));
                                    Self::lemma_edge_dead_blocked(gpre, e as int);
                                }
                            }
                            assert forall|x: int|
                                rejected.contains(x) implies 0 <= x < self.applicants@.len()
                                && self.applicants@[x].current_post is None && self.no_option(
                                x,
                            ) by {
                                assert(self.applicants@[x] == gpre.applicants@[x]);
                                assert(gpre.no_option(x));
                                assert forall|j: int|
                                    0 <= j < self.applicants@[x].neighbours@.len()
                                        implies self.edge_dead(
                                    (#[trigger] self.applicants@[x].neighbours@[j]) as int) by {
                                    let e2 = self.applicants@[x].neighbours@[j] as int;
                                    assert(gpre.edge_dead(e2));
                                    assert(gpre.appl_wf(x));
                                    assert(gpre.edge_wf(e2));
                                    let pe = gpre.edges@[e2].p_i as int;
                                    assert(pe != pf) by {
                                        if pe == pf {
                                            assert(gpre.fill_ok(e as int));
                                        }
                                    }
                                    assert(self.posts@[pe] == gpre.posts@[pe]);
                                }
                            }
                            assert forall|b: int|
                                0 <= b < self.applicants@.len() && (#[trigger] self.applicants@[
                                b
                            ]).open_to_work && self.applicants@[b].current_post is None
                                implies queue@.contains(b as usize) || rejected.contains(b) by {
                                if b != a as int {
                                    assert(gpre.applicants@[b] == self.applicants@[b]);
                                    if q0.contains(b as usize) {
                                        let i = choose|i: int|
                                            0 <= i < q0.len() && q0[i] == (b as usize);
                                        assert(q0[q0.len() - 1] == a);
                                        assert(i < q0.len() - 1);
                                        assert(queue@[i] == (b as usize));
                                        assert(queue@.contains(b as usize));
                                    }
                                }
                            }
                        }
                    },
                    None => {
                        match self.best_displace_edge(a) {
                            Some(pair) => {
                                let p_d = self.edges[pair.0].p_i;
                                let e_old = self.posts[p_d].current_applicants[pair.1];
                                let ghost gpre = *self;
                                let freed = self.displace(a, pair.0, pair.1);
                                queue.push(freed);
                                proof {
                                    let pd = p_d as int;
                                    let slots0 = gpre.posts@[pd].current_applicants@;
                                    let slots = self.posts@[pd].current_applicants@;
                                    assert(slots == slots0.update(
                                        pair.1 as int,
                                        pair.0 as usize,
                                    ));
                                    assert(gpre.post_wf(pd));
                                    let ev0 = evicted_edges;
                                    assert(!ev0.contains(e_old as int)) by {
                                        if ev0.contains(e_old as int) {
                                            assert(gpre.evicted_stays_out(e_old as int));
                                            assert(slots0[pair.1 as int] == e_old);
                                            assert(slots0.contains(e_old));
                                        }
                                    }
                                    assert(!ev0.contains(pair.0 as int)) by {
                                        if ev0.contains(pair.0 as int) {
                                            assert(gpre.evicted_stays_out(pair.0 as int));
                                            assert(gpre.edges@[slots0[pair.1 as int] as int].weight
                                                >= gpre.edges@[pair.0 as int].weight);
                                        }
                                    }
                                    evicted_edges = evicted_edges.insert(e_old as int);
                                    assert(evicted_edges.len() == ev0.len() + 1);
                                    assert(self.evicted_stays_out(e_old as int)) by {
                                        assert forall|k: int|
                                            0 <= k < slots.len() implies self.edges@[(
                                        #[trigger] slots[k]) as int].weight >= self.edges@[(
                                        e_old as int)].weight && slots[k] != e_old by {
                                            if k == pair.1 as int {
                                                assert(slots[k] == pair.0 as usize);
                                                assert(self.edges@[pair.0 as int].weight
                                                    > self.edges@[e_old as int].weight);
                                            } else {
                                                assert(slots[k] == slots0[k]);
                                                assert(slots0[pair.1 as int] == e_old);
                                                assert(gpre.edges@[slots0[k] as int].weight
                                                    >= gpre.edges@[e_old as int].weight);
                                            }
                                        }
                                        assert(!slots.contains(e_old)) by {
                                            if slots.contains(e_old) {
                                                let kx = choose|kx: int|
                                                    0 <= kx < slots.len() && slots[kx] == e_old;
                                                assert(slots[kx] != e_old);
                                            }
                                        }
                                    }
                                    assert forall|x: int|
                                        evicted_edges.contains(x) && x != e_old
                                            implies self.evicted_stays_out(x) by {
                                        assert(ev0.contains(x));
                                        assert(gpre.evicted_stays_out(x));
                                        assert(gpre.edge_wf(x));
                                        let px = gpre.edges@[x].p_i as int;
                                        if px == pd {
                                            assert(slots0[pair.1 as int] == e_old);
                                            assert(gpre.edges@[e_old as int].weight
                                                >= gpre.edges@[x].weight);
                                            assert(self.edges@[pair.0 as int].weight
                                                > self.edges@[e_old as int].weight);
                                            assert(x != pair.0 as int);
                                            assert forall|k: int|
                                                0 <= k < slots.len() implies self.edges@[(
                                            #[trigger] slots[k]) as int].weight >= self.edges@[
                                                x
                                            ].weight && slots[k] != (x as usize) by {
                                                if k == pair.1 as int {
                                                    assert(slots[k] == pair.0 as usize);
                                                } else {
                                                    assert(slots[k] == slots0[k]);
                                                    assert(gpre.edges@[slots0[k] as int].weight
                                                        >= gpre.edges@[x].weight);
                                                    if slots0[k] == x as usize {
                                                        assert(slots0.contains(x as usize));
                                                    }
                                                }
                                            }
                                            assert(!slots.contains(x as usize)) by {
                                                if slots.contains(x as usize) {
                                                    let kx = choose|kx: int|
                                                        0 <= kx < slots.len() && slots[kx] == (
                                                        x as usize);
                                                    assert(slots[kx] != (x as usize));
                                                }
                                            }
                                        } else {
                                            assert(self.posts@[px] == gpre.posts@[px]);
                                        }
                                    }
                                    assert(!rejected.contains(a as int)) by {
                                        if rejected.contains(a as int) {
                                            let nb_len = gpre.applicants@[a as int].neighbours@
                                                .len() as int;
                                            Self::lemma_best_displace_some(
                                                gpre,
                                                a as int,
                                                nb_len,
                                            );
                                            let j = choose|j: int|
                                                0 <= j < nb_len && ((
                                                #[trigger] gpre.applicants@[a as int].neighbours@[
                                                    j
                                                ]) as int) == pair.0 as int;
                                            assert(gpre.edge_dead(pair.0 as int));
                                            assert(gpre.appl_wf(a as int));
                                            Self::lemma_edge_dead_blocked(gpre, pair.0 as int);
                                        }
                                    }
                                    assert(!rejected.contains(freed as int)) by {
                                        if rejected.contains(freed as int) {
                                            assert(gpre.applicants@[freed as int].current_post
                                                == Some(e_old));
                                        }
                                    }
                                    assert forall|x: int|
                                        rejected.contains(x) implies 0 <= x
                                        < self.applicants@.len() && self.applicants@[x]
                                        .current_post is None && self.no_option(x) by {
                                        assert(self.applicants@[x] == gpre.applicants@[x]);
                                        assert(gpre.no_option(x));
                                        assert forall|j: int|
                                            0 <= j < self.applicants@[x].neighbours@.len()
                                                implies self.edge_dead(
                                            (#[trigger] self.applicants@[x].neighbours@[
                                                j
                                            ]) as int) by {
                                            let e2 = self.applicants@[x].neighbours@[j] as int;
                                            assert(gpre.edge_dead(e2));
                                            assert(gpre.appl_wf(x));
                                            assert(gpre.edge_wf(e2));
                                            let pe = gpre.edges@[e2].p_i as int;
                                            if pe == pd {
                                                assert(slots0[pair.1 as int] == e_old);
                                                assert(gpre.edges@[e_old as int].weight
                                                    >= gpre.edges@[e2].weight);
                                                assert forall|k: int|
                                                    0 <= k < slots.len() implies self.edges@[(
                                                #[trigger] slots[k]) as int].weight
                                                    >= self.edges@[e2].weight by {
                                                    if k == pair.1 as int {
                                                        assert(slots[k] == pair.0 as usize);
                                                        assert(self.edges@[pair.0 as int].weight
                                                            > self.edges@[e_old as int].weight);
                                                    } else {
                                                        assert(slots[k] == slots0[k]);
                                                        assert(gpre.edges@[slots0[k] as int]
                                                            .weight >= gpre.edges@[e2].weight);
                                                    }
                                                }
                                            } else {
                                                assert(self.posts@[pe] == gpre.posts@[pe]);
                                            }
                                        }
                                    }
                                    assert forall|b: int|
                                        0 <= b < self.applicants@.len() && (
                                    #[trigger] self.applicants@[b]).open_to_work
                                        && self.applicants@[b].current_post is None
                                        implies queue@.contains(b as usize) || rejected.contains(
                                        b,
                                    ) by {
                                        if b == freed as int {
                                            assert(queue@[queue@.len() - 1] == freed);
                                            assert(queue@.contains(b as usize));
                                        } else if b != a as int {
                                            assert(gpre.applicants@[b] == self.applicants@[b]);
                                            if q0.contains(b as usize) {
                                                let i = choose|i: int|
                                                    0 <= i < q0.len() && q0[i] == (b as usize);
                                                assert(q0[q0.len() - 1] == a);
                                                assert(i < q0.len() - 1);
                                                assert(queue@[i] == (b as usize));
                                                assert(queue@.contains(b as usize));
                                            }
                                        }
                                    }
                                }
                            },
                            None => {
                                proof {
                                    let nb_len = self.applicants@[a as int].neighbours@.len()
                                        as int;
                                    Self::lemma_best_fill_none(*self, a as int, nb_len);
                                    Self::lemma_best_displace_none(*self, a as int, nb_len);
                                    assert(self.appl_wf(a as int));
                                    assert forall|j: int|
                                        0 <= j < nb_len implies self.edge_dead(
                                    (#[trigger] self.applicants@[a as int].neighbours@[
                                        j
                                    ]) as int) by {
                                        let e2 = self.applicants@[a as int].neighbours@[
                                            j
                                        ] as int;
                                        assert(self.edge_wf(e2));
                                        Self::lemma_edge_dead_blocked(*self, e2);
                                    }
                                    rejected = rejected.insert(a as int);
                                    assert forall|b: int|
                                        0 <= b < self.applicants@.len() && (
                                    #[trigger] self.applicants@[b]).open_to_work
                                        && self.applicants@[b].current_post is None
                                        implies queue@.contains(b as usize) || rejected.contains(
                                        b,
                                    ) by {
                                        if b != a as int {
                                            if q0.contains(b as usize) {
                                                let i = choose|i: int|
                                                    0 <= i < q0.len() && q0[i] == (b as usize);
                                                assert(q0[q0.len() - 1] == a);
                                                assert(i < q0.len() - 1);
                                                assert(queue@[i] == (b as usize));
                                                assert(queue@.contains(b as usize));
                                            }
                                        }
                                    }
                                }
                            },
                        }
                    },
                }
            } else {
                proof {
                    assert forall|b: int|
                        0 <= b < self.applicants@.len() && (#[trigger] self.applicants@[b])
                            .open_to_work && self.applicants@[b].current_post is None
                        implies queue@.contains(b as usize) || rejected.contains(b) by {
                        if b != a as int {
                            if q0.contains(b as usize) {
                                let i = choose|i: int|
                                    0 <= i < q0.len() && q0[i] == (b as usize);
                                assert(q0[q0.len() - 1] == a);
                                assert(i < q0.len() - 1);
                                assert(queue@[i] == (b as usize));
                                assert(queue@.contains(b as usize));
                            }
                        }
                    }
                }
            }
        }
        // The step budget cannot run out before the queue drains: every pop
        // is paid for either by an applicant queued at the start or by one
        // displacement, and each edge is displaced against at most once.
        proof {
            if queue@.len() > 0 {
                let erange = vstd::set_lib::set_int_range(0, g0.edges@.len() as int);
                vstd::set_lib::lemma_int_range(0, g0.edges@.len() as int);
                assert(evicted_edges.subset_of(erange));
                vstd::set_lib::lemma_len_subset(evicted_edges, erange);
                assert(false);
            }
            assert forall|b: int|
                0 <= b < self.applicants@.len() && (#[trigger] self.applicants@[b]).open_to_work
                    && self.applicants@[b].current_post is None implies self.no_option(b) by {
                assert(!queue@.contains(b as usize));
                assert(rejected.contains(b));
            }
        }
    }

    /// Edge `x` is dead: its post holds no fewer assignments than its
    /// capacity, and every incumbent there weighs at least as much as `x`
    /// does. A dead edge can neither fill a slot nor displace an incumbent,
    /// and one matching pass never revives it.
    pub open spec fn edge_dead(self, x: int) -> bool {
        let px = self.edges@[x].p_i as int;
        let slots = self.posts@[px].current_applicants@;
        &&& slots.len() >= self.posts@[px].capacity
        &&& forall|k: int|
            0 <= k < slots.len() ==> self.edges@[(#[trigger] slots[k]) as int].weight
                >= self.edges@[x].weight
    }

    /// An evicted edge is dead and holds no slot itself, and stays so: this
    /// is what bounds the number of augmenting steps of one matching pass
    /// by the number of edges.
    pub open spec fn evicted_stays_out(self, x: int) -> bool {
        &&& self.edge_dead(x)
        &&& !self.posts@[self.edges@[x].p_i as int].current_applicants@.contains(x as usize)
    }

    /// A dead edge offers nothing: it can neither fill an open slot nor
    /// displace an incumbent, and conversely an edge that can do neither,
    /// at a post that is not short of assignments, is dead.
    pub proof fn lemma_edge_dead_blocked(g: Self, x: int)
        requires
            g.wf(),
            g.edge_wf(x),
        ensures
            g.edge_dead(x) <==> !g.fill_ok(x) && !g.displace_ok(x),
    {
        let px = g.edges@[x].p_i as int;
        let slots = g.posts@[px].current_applicants@;
        Self::lemma_weakest_slot_minimal(g, px, slots.len() as int);
        if g.edge_dead(x) {
            match g.weakest_slot_spec(px, slots.len() as int) {
                Some(j) => {
                    assert(g.edges@[slots[j] as int].weight >= g.edges@[x].weight);
                },
                None => {},
            }
        }
        if !g.fill_ok(x) && !g.displace_ok(x) {
            match g.weakest_slot_spec(px, slots.len() as int) {
                Some(j) => {
                    assert forall|k: int|
                        0 <= k < slots.len() implies g.edges@[(#[trigger] slots[k]) as int].weight
                        >= g.edges@[x].weight by {
                        assert(g.edges@[slots[j] as int].weight <= g.edges@[slots[k] as int].weight);
                    }
                },
                None => {
                    assert(slots.len() == 0);
                },
            }
        }
    }

    /// Applicant `a` has no option left: every edge in its neighbour list
    /// is dead.
    pub open spec fn no_option(self, a: int) -> bool {
        forall|j: int|
            0 <= j < self.applicants@[a].neighbours@.len() ==> self.edge_dead(
                (#[trigger] self.applicants@[a].neighbours@[j]) as int,
            )
    }

    /// A fruitless fill scan means none of the scanned neighbour edges can
    /// fill a slot.
    pub proof fn lemma_best_fill_none(g: Self, a: int, n: int)
        requires
            g.best_fill(a, n) is None,
        ensures
            forall|j: int|
                0 <= j < n ==> !g.fill_ok((#[trigger] g.applicants@[a].neighbours@[j]) as int),
        decreases n,
    {
        if n > 0 {
            Self::lemma_best_fill_none(g, a, n - 1);
        }
    }

    /// A fruitless displacement scan means none of the scanned neighbour
    /// edges can displace an incumbent.
    pub proof fn lemma_best_displace_none(g: Self, a: int, n: int)
        requires
            g.best_displace(a, n) is None,
        ensures
            forall|j: int|
                0 <= j < n ==> !g.displace_ok((#[trigger] g.applicants@[a].neighbours@[j]) as int),
        decreases n,
    {
        if n > 0 {
            Self::lemma_best_displace_none(g, a, n - 1);
        }
    }

    /// A successful fill scan hands back one of the scanned neighbour
    /// edges.
    pub proof fn lemma_best_fill_some(g: Self, a: int, n: int)
        ensures
            g.best_fill(a, n) matches Some(e) ==> exists|j: int|
                0 <= j < n && ((#[trigger] g.applicants@[a].neighbours@[j]) as int) == e,
        decreases n,
    {
        if n > 0 {
            Self::lemma_best_fill_some(g, a, n - 1);
        }
    }

    /// A successful displacement scan hands back one of the scanned
    /// neighbour edges.
    pub proof fn lemma_best_displace_some(g: Self, a: int, n: int)
        ensures
            g.best_displace(a, n) matches Some(e) ==> exists|j: int|
                0 <= j < n && ((#[trigger] g.applicants@[a].neighbours@[j]) as int) == e,
        decreases n,
    {
        if n > 0 {
            Self::lemma_best_displace_some(g, a, n - 1);
        }
    }

    /// One augmenting/displacement step, witnessed by the filling applicant
    /// `a`, its edge `e`, and the evicted incumbent's slot `j`: in a
    /// well-formed state, the unassigned applicant of `e` takes the place
    /// of a strictly lighter incumbent at `e`'s post, the incumbent becomes
    /// unassigned, and every other assignment and all edges stay as they
    /// were.
    pub open spec fn displace_step(g1: Self, g2: Self, a: int, e: int, j: int) -> bool {
        &&& g1.wf()
        &&& g1.edge_wf(e)
        &&& g1.edges@[e].a_i == a
        &&& g1.applicants@[a].current_post is None
        &&& 0 <= j < g1.posts@[g1.edges@[e].p_i as int].current_applicants@.len()
        &&& g1.edges@[g1.posts@[g1.edges@[e].p_i as int].current_applicants@[j] as int].weight
            < g1.edges@[e].weight
        &&& g2.edges@ == g1.edges@
        &&& g2.applicants@.len() == g1.applicants@.len()
        &&& (g2.applicants@[a].current_post matches Some(x) && x as int == e)
        &&& ({
            let evicted = g1.edges@[g1.posts@[g1.edges@[e].p_i as int].current_applicants@[
                j
            ] as int].a_i as int;
            &&& g2.applicants@[evicted].current_post is None
            &&& forall|b: int|
                0 <= b < g1.applicants@.len() && b != a && b != evicted
                    ==> g2.applicants@[b].current_post == g1.applicants@[b].current_post
        })
    }

    /// Two states are related by one augmenting/displacement step.
    pub open spec fn displace_rel(g1: Self, g2: Self) -> bool {
        exists|a: int, e: int, j: int| Self::displace_step(g1, g2, a, e, j)
    }

    /// One augmenting/displacement step strictly increases the total
    /// matched weight: the newcomer's edge outweighs the evicted one.
    pub proof fn lemma_displace_monotonic(g1: Self, g2: Self)
        requires
            Self::displace_rel(g1, g2),
        ensures
            g2.total_weight() > g1.total_weight(),
    {
        let (a, e, j) = choose|a: int, e: int, j: int| Self::displace_step(g1, g2, a, e, j);
        assert(Self::displace_step(g1, g2, a, e, j));
        let p = g1.edges@[e].p_i as int;
        let e_old = g1.posts@[p].current_applicants@[j];
        let evicted = g1.edges@[e_old as int].a_i as int;
        assert(g1.post_wf(p));
        assert(g1.applicants@[evicted].current_post == Some(e_old));
        assert(evicted != a);
        assert(g2.assigned_weight(a) == g1.edges@[e].weight);
        assert(g1.assigned_weight(a) == 0);
        assert(g2.assigned_weight(evicted) == 0);
        assert(g1.assigned_weight(evicted) == g1.edges@[e_old as int].weight);
        assert forall|b: int|
            0 <= b < g1.applicants@.len() && b != a && b != evicted implies g1.assigned_weight(b)
            == g2.assigned_weight(b) by {}
        Self::lemma_weight_change_two(g1, g2, a, evicted, g1.applicants@.len() as int);
    }

    /// Across any chain of states joined by augmenting/displacement steps,
    /// the total matched weight never decreases from an earlier state to a
    /// later one; each single step in fact increases it strictly.
    pub proof fn lemma_augmenting_chain_monotonic(gs: Seq<Self>, i: int, k: int)
        requires
            0 <= i <= k < gs.len(),
            forall|x: int| 0 <= x < gs.len() - 1 ==> #[trigger] Self::displace_rel(gs[x], gs[x + 1]),
        ensures
            gs[i].total_weight() <= gs[k].total_weight(),
            i < k ==> gs[i].total_weight() < gs[k].total_weight(),
        decreases k - i,
    {
        if i < k {
            Self::lemma_augmenting_chain_monotonic(gs, i, k - 1);
            let x = k - 1;
            assert(Self::displace_rel(gs[x], gs[x + 1]));
            assert(gs[x + 1] == gs[k]);
            Self::lemma_displace_monotonic(gs[k - 1], gs[k]);
        }
    }

    /// No chain of augmenting/displacement steps can revisit a state: each
    /// step strictly increases the total matched weight, so a cycle of
    /// displacements cannot repeat indefinitely and the edge set being
    /// finite bounds every such chain.
    pub proof fn lemma_augmenting_chain_no_repeat(gs: Seq<Self>, i: int, k: int)
        requires
            0 <= i < k < gs.len(),
            forall|x: int| 0 <= x < gs.len() - 1 ==> #[trigger] Self::displace_rel(gs[x], gs[x + 1]),
        ensures
            gs[i] != gs[k],
    {
        Self::lemma_augmenting_chain_monotonic(gs, i, k);
    }
}

} // verus!
