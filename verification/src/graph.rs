//! Dependency ordering: strongly connected components of a reference
//! graph, emitted callees-first.
use vstd::prelude::*;

verus! {

/// Whether `g` has an edge `u → w`.
pub open spec fn has_edge(g: Seq<Vec<usize>>, u: usize, w: usize) -> bool {
    u < g.len() && g[u as int]@.contains(w)
}

/// Whether every edge of `g` points at one of its nodes.
pub open spec fn edges_in_range(g: Seq<Vec<usize>>) -> bool {
    forall|u: int, j: int|
        0 <= u < g.len() && 0 <= j < g[u]@.len() ==> #[trigger] g[u]@[j] < g.len()
}

/// Whether `c` is strictly ascending.
pub open spec fn ascending(c: Seq<usize>) -> bool {
    forall|i: int, j: int| 0 <= i < j < c.len() ==> c[i] < c[j]
}

/// Whether some component holds `x`.
pub open spec fn covered(comps: Seq<Vec<usize>>, x: usize) -> bool {
    exists|k: int| 0 <= k < comps.len() && #[trigger] comps[k]@.contains(x)
}

/// Whether `comps` partitions the nodes `0..n`: every component is a
/// non-empty ascending list of nodes, and every node lies in exactly one.
pub open spec fn partitions(comps: Seq<Vec<usize>>, n: nat) -> bool {
    &&& forall|k: int|
        0 <= k < comps.len() ==> comps[k]@.len() > 0 && ascending(comps[k]@)
    &&& forall|k: int, i: int|
        0 <= k < comps.len() && 0 <= i < comps[k]@.len() ==> #[trigger] comps[k]@[i] < n
    &&& forall|x: usize| x < n ==> #[trigger] covered(comps, x)
    &&& forall|k1: int, k2: int, x: usize|
        0 <= k1 < comps.len() && 0 <= k2 < comps.len() && #[trigger] comps[k1]@.contains(x)
            && #[trigger] comps[k2]@.contains(x) ==> k1 == k2
}

/// Whether every edge leads to the same or an earlier component: callees
/// come before their callers.
pub open spec fn callees_first(g: Seq<Vec<usize>>, comps: Seq<Vec<usize>>) -> bool {
    forall|k1: int, k2: int, u: usize, w: usize|
        0 <= k1 < comps.len() && 0 <= k2 < comps.len() && #[trigger] comps[k1]@.contains(u)
            && #[trigger] comps[k2]@.contains(w) && has_edge(g, u, w) ==> k2 <= k1
}

/// Whether position `i` of `p` steps along an edge of `g`.
pub open spec fn step(g: Seq<Vec<usize>>, p: Seq<usize>, i: int) -> bool {
    has_edge(g, p[i], p[i + 1])
}

/// Whether `p` is a non-empty walk along the edges of `g`.
pub open spec fn is_path(g: Seq<Vec<usize>>, p: Seq<usize>) -> bool {
    p.len() > 0 && forall|i: int| 0 <= i < p.len() - 1 ==> #[trigger] step(g, p, i)
}

/// Whether `w` can be reached from `u` along edges of `g` (in zero or
/// more steps).
pub open spec fn reaches(g: Seq<Vec<usize>>, u: usize, w: usize) -> bool {
    exists|p: Seq<usize>| #[trigger] is_path(g, p) && p[0] == u && p.last() == w
}

/// Whether every component is strongly connected and maximal: nodes of
/// one component reach each other, and nodes that reach each other lie
/// in one component.
pub open spec fn strongly_connected(g: Seq<Vec<usize>>, comps: Seq<Vec<usize>>) -> bool {
    &&& forall|k: int, x: usize, y: usize|
        0 <= k < comps.len() && #[trigger] comps[k]@.contains(x) && #[trigger] comps[k]@.contains(y)
            ==> reaches(g, x, y)
    &&& forall|k1: int, k2: int, x: usize, y: usize|
        0 <= k1 < comps.len() && 0 <= k2 < comps.len() && #[trigger] comps[k1]@.contains(x)
            && #[trigger] comps[k2]@.contains(y) && reaches(g, x, y) && reaches(g, y, x) ==> k1 == k2
}

/// Every node reaches itself.
pub proof fn lemma_reach_refl(g: Seq<Vec<usize>>, u: usize)
    ensures
        reaches(g, u, u),
{
    let p = seq![u];
    assert(is_path(g, p));
}

/// An edge is a reach.
pub proof fn lemma_reach_edge(g: Seq<Vec<usize>>, u: usize, w: usize)
    requires
        has_edge(g, u, w),
    ensures
        reaches(g, u, w),
{
    let p = seq![u, w];
    assert forall|i: int| 0 <= i < p.len() - 1 implies #[trigger] step(g, p, i) by {
        assert(i == 0);
    }
    assert(is_path(g, p));
}

/// Reaches compose.
pub proof fn lemma_reach_trans(g: Seq<Vec<usize>>, u: usize, w: usize, x: usize)
    requires
        reaches(g, u, w),
        reaches(g, w, x),
    ensures
        reaches(g, u, x),
{
    let p1 = choose|p: Seq<usize>| #[trigger] is_path(g, p) && p[0] == u && p.last() == w;
    let p2 = choose|p: Seq<usize>| #[trigger] is_path(g, p) && p[0] == w && p.last() == x;
    let p = p1 + p2.subrange(1, p2.len() as int);
    assert forall|i: int| 0 <= i < p.len() - 1 implies #[trigger] step(g, p, i) by {
        if i < p1.len() - 1 {
            assert(step(g, p1, i));
        } else if i == p1.len() - 1 {
            assert(p[i] == w);
            assert(p[i + 1] == p2[1]);
            assert(step(g, p2, 0));
        } else {
            let j = i - p1.len() + 1;
            assert(p[i] == p2[j]);
            assert(p[i + 1] == p2[j + 1]);
            assert(step(g, p2, j));
        }
    }
    assert(is_path(g, p));
    if p2.len() == 1 {
        assert(p.last() == p1.last());
    } else {
        assert(p.last() == p2.last());
    }
}

/// Along a walk, the component index never grows under a callees-first
/// partition.
proof fn lemma_path_down(g: Seq<Vec<usize>>, comps: Seq<Vec<usize>>, p: Seq<usize>, k1: int, k2: int)
    requires
        edges_in_range(g),
        partitions(comps, g.len()),
        callees_first(g, comps),
        is_path(g, p),
        p[0] < g.len(),
        0 <= k1 < comps.len(),
        0 <= k2 < comps.len(),
        comps[k1]@.contains(p[0]),
        comps[k2]@.contains(p.last()),
    ensures
        k2 <= k1,
    decreases p.len(),
{
    if p.len() > 1 {
        assert(step(g, p, 0));
        let w = p[1];
        assert(w < g.len()) by {
            let j = choose|j: int| 0 <= j < g[p[0] as int]@.len() && g[p[0] as int]@[j] == w;
            assert(g[p[0] as int]@[j] < g.len());
        }
        assert(covered(comps, w));
        let km = choose|k: int| 0 <= k < comps.len() && #[trigger] comps[k]@.contains(w);
        let q = p.subrange(1, p.len() as int);
        assert forall|i: int| 0 <= i < q.len() - 1 implies #[trigger] step(g, q, i) by {
            assert(step(g, p, i + 1));
        }
        assert(q.last() == p.last());
        lemma_path_down(g, comps, q, km, k2);
    } else {
        assert(comps[k1]@.contains(p[0]) && comps[k2]@.contains(p[0]));
    }
}

/// Whether `x` can be reached from some node below `s`.
pub open spec fn reached_below(g: Seq<Vec<usize>>, s: int, x: usize) -> bool {
    exists|u: usize| u < s && #[trigger] reaches(g, u, x)
}

/// Whether components come in the order of the first node, by index, that
/// reaches them: those reachable from a node below `s` all come before
/// those that are not, for every `s`. (The search starts from the nodes in
/// index order, so the components found from an earlier start are emitted
/// first.)
pub open spec fn first_reached_first(g: Seq<Vec<usize>>, comps: Seq<Vec<usize>>) -> bool {
    forall|s: int, k1: int, k2: int, x: usize, y: usize|
        #![trigger comps[k1]@.contains(x), comps[k2]@.contains(y), reached_below(g, s, x)]
        0 <= k1 < comps.len() && 0 <= k2 < comps.len() && comps[k1]@.contains(x) && comps[k2]@.contains(y)
            && reached_below(g, s, x) && !reached_below(g, s, y) ==> k1 < k2
}

/// A node reached from below `s` is reached from below any larger bound.
proof fn lemma_reached_below_mono(g: Seq<Vec<usize>>, s: int, t: int, x: usize)
    requires
        s <= t,
        reached_below(g, s, x),
    ensures
        reached_below(g, t, x),
{
    let u = choose|u: usize| u < s && #[trigger] reaches(g, u, x);
    assert(u < t && reaches(g, u, x));
}

/// With the stack empty, every node reachable from a visited node is
/// visited.
proof fn lemma_visited_closed(w: Walk, g: Seq<Vec<usize>>, p: Seq<usize>)
    requires
        w.inv(g),
        w.stack@.len() == 0,
        is_path(g, p),
        p[0] < g.len(),
        w.visited(p[0]),
    ensures
        p.last() < g.len(),
        w.visited(p.last()),
    decreases p.len(),
{
    if p.len() > 1 {
        assert(step(g, p, 0));
        let x = p[0];
        let y = p[1];
        assert(y < g.len()) by {
            let j = choose|j: int| 0 <= j < g[x as int]@.len() && g[x as int]@[j] == y;
            assert(g[x as int]@[j] < g.len());
        }
        if w.on_stack@[x as int] {
            assert(w.stack@.contains(x));
        }
        assert(w.done(x));
        assert(w.done(y));
        let q = p.subrange(1, p.len() as int);
        assert forall|i: int| 0 <= i < q.len() - 1 implies #[trigger] step(g, q, i) by {
            assert(step(g, p, i + 1));
        }
        assert(q.last() == p.last());
        lemma_visited_closed(w, g, q);
    }
}

/// The unvisited mark of the discovery index.
pub const UNVISITED: u32 = 0xffff_ffffu32;

/// The traversal state of Tarjan's algorithm.
struct Walk {
    /// Discovery index per node; [`UNVISITED`] marks unvisited.
    index: Vec<u32>,
    /// Smallest index reachable from each node through the stack.
    lowlink: Vec<u32>,
    /// Whether each node is currently on the component stack.
    on_stack: Vec<bool>,
    /// The component stack.
    stack: Vec<usize>,
    /// Next discovery index.
    next: u32,
    /// Completed components.
    out: Vec<Vec<usize>>,
    /// The component each completed node went to.
    comp: Ghost<Seq<int>>,
    /// The nodes whose visit has finished.
    fin: Ghost<Set<usize>>,
    /// The visited nodes; there are exactly `next` of them.
    seen: Ghost<Set<int>>,
    /// The stacked node whose index each node's lowlink holds.
    lw: Ghost<Seq<usize>>,
}

impl Walk {
    spec fn visited(&self, x: usize) -> bool {
        self.index@[x as int] != UNVISITED
    }

    spec fn done(&self, x: usize) -> bool {
        self.visited(x) && !self.on_stack@[x as int]
    }

    spec fn inv(&self, g: Seq<Vec<usize>>) -> bool {
        let n = g.len();
        &&& edges_in_range(g)
        &&& n < UNVISITED
        &&& self.index@.len() == n
        &&& self.lowlink@.len() == n
        &&& self.on_stack@.len() == n
        &&& self.comp@.len() == n
        &&& self.next <= n
        &&& self.seen@.finite()
        &&& self.seen@.len() == self.next
        &&& forall|x: int| #[trigger] self.seen@.contains(x) ==> 0 <= x < n
        &&& forall|x: usize| x < n ==> (self.seen@.contains(x as int) <==> #[trigger] self.visited(x))
        &&& forall|x: usize|
            x < n && #[trigger] self.visited(x) ==> self.index@[x as int] < self.next
                && self.lowlink@[x as int] <= self.index@[x as int]
        &&& forall|x: usize| x < n && #[trigger] self.on_stack@[x as int] ==> self.visited(x)
                && self.stack@.contains(x)
        &&& forall|i: int|
            0 <= i < self.stack@.len() ==> #[trigger] self.stack@[i] < n && self.on_stack@[
                self.stack@[i] as int]
        &&& forall|i: int, j: int|
            0 <= i < j < self.stack@.len() ==> self.index@[#[trigger] self.stack@[i] as int]
                < self.index@[#[trigger] self.stack@[j] as int]
        &&& forall|i: int|
            0 <= i < self.stack@.len() ==> self.lowlink@[#[trigger] self.stack@[i] as int]
                >= self.index@[self.stack@[0] as int]
        &&& forall|k: int|
            0 <= k < self.out@.len() ==> self.out@[k]@.len() > 0 && ascending(
                #[trigger] self.out@[k]@,
            )
        &&& forall|k: int, i: int|
            0 <= k < self.out@.len() && 0 <= i < self.out@[k]@.len() ==> {
                let x = #[trigger] self.out@[k]@[i];
                x < n && self.done(x) && self.comp@[x as int] == k
            }
        &&& forall|x: usize|
            x < n && #[trigger] self.done(x) ==> 0 <= self.comp@[x as int] < self.out@.len()
                && self.out@[self.comp@[x as int]]@.contains(x) && self.fin@.contains(x)
        &&& forall|x: usize, w: usize|
            x < n && #[trigger] self.done(x) && #[trigger] has_edge(g, x, w) ==> self.done(w)
                && self.comp@[w as int] <= self.comp@[x as int]
        &&& forall|x: usize| #[trigger] self.fin@.contains(x) ==> x < n && self.visited(x)
        &&& forall|x: usize, w: usize|
            x < n && #[trigger] self.fin@.contains(x) && self.on_stack@[x as int]
                && #[trigger] has_edge(g, x, w) ==> self.done(w) || (self.on_stack@[w as int]
                && self.lowlink@[x as int] <= self.index@[w as int])
    }

    /// What the walk knows of paths: a finished node on the stack reaches
    /// the stacked node its lowlink was taken from, and the nodes of every
    /// completed component reach each other.
    spec fn reach_inv(&self, g: Seq<Vec<usize>>) -> bool {
        let n = g.len();
        &&& self.lw@.len() == n
        &&& forall|x: usize|
            #[trigger] self.fin@.contains(x) && x < n && self.on_stack@[x as int] ==> {
                let y = self.lw@[x as int];
                &&& y < n
                &&& self.on_stack@[y as int]
                &&& self.index@[y as int] == self.lowlink@[x as int]
                &&& reaches(g, x, y)
            }
        &&& forall|k: int, i: int, j: int|
            0 <= k < self.out@.len() && 0 <= i < self.out@[k]@.len() && 0 <= j < self.out@[k]@.len()
                ==> reaches(g, #[trigger] self.out@[k]@[i], #[trigger] self.out@[k]@[j])
    }

    /// What a visit keeps of the state it started from.
    spec fn extends(&self, a: Walk, n: nat) -> bool {
        &&& a.next <= self.next
        &&& a.stack@.len() <= self.stack@.len()
        &&& self.stack@.take(a.stack@.len() as int) == a.stack@
        &&& a.out@.len() <= self.out@.len()
        &&& forall|k: int| 0 <= k < a.out@.len() ==> #[trigger] self.out@[k]@ == a.out@[k]@
        &&& forall|x: usize|
            x < n && #[trigger] a.visited(x) ==> self.index@[x as int] == a.index@[x as int]
                && self.lowlink@[x as int] == a.lowlink@[x as int] && self.on_stack@[x as int]
                == a.on_stack@[x as int]
        &&& forall|x: usize| x < n && #[trigger] a.done(x) ==> self.comp@[x as int] == a.comp@[x as int]
        &&& forall|x: usize| #[trigger] a.fin@.contains(x) ==> self.fin@.contains(x)
        &&& forall|x: usize| #[trigger] self.fin@.contains(x) && x < n && a.visited(x) ==> a.fin@.contains(x)
        &&& self.seen@.len() == self.next
        &&& forall|x: usize|
            x < n && #[trigger] self.visited(x) && !a.visited(x) ==> self.fin@.contains(x)
                && self.index@[x as int] >= a.next
    }

    /// Visits `v`, emitting its component once the root is closed.
    #[verifier::spinoff_prover]
    #[verifier::rlimit(60)]
    fn connect(&mut self, g: &[Vec<usize>], v: usize)
        requires
            old(self).inv(g@),
            old(self).reach_inv(g@),
            v < g@.len(),
            !old(self).visited(v),
        ensures
            final(self).inv(g@),
            final(self).reach_inv(g@),
            final(self).extends(*old(self), g@.len()),
            forall|x: usize|
                x < g@.len() && #[trigger] old(self).visited(x) ==> final(self).lw@[x as int] == old(
                    self,
                ).lw@[x as int],
            forall|x: usize|
                x < g@.len() && #[trigger] final(self).visited(x) && !old(self).visited(x) ==> reaches(
                    g@,
                    v,
                    x,
                ),
            forall|i: int|
                old(self).stack@.len() <= i < final(self).stack@.len() ==> final(self).lowlink@[
                    #[trigger] final(self).stack@[i] as int] < final(self).index@[final(self).stack@[i] as int],
            final(self).visited(v),
            final(self).fin@.contains(v),
            final(self).on_stack@[v as int] ==> {
                &&& old(self).stack@.len() < final(self).stack@.len()
                &&& final(self).stack@[old(self).stack@.len() as int] == v
                &&& final(self).lowlink@[v as int] < final(self).index@[v as int]
                &&& forall|i: int|
                    old(self).stack@.len() <= i < final(self).stack@.len()
                        ==> final(self).lowlink@[#[trigger] final(self).stack@[i] as int]
                        >= final(self).lowlink@[v as int]
            },
            !final(self).on_stack@[v as int] ==> final(self).stack@ == old(self).stack@
                && final(self).lowlink@[v as int] == final(self).index@[v as int],
        decreases g@.len() - old(self).next,
    {
        let ghost a = *self;
        let ghost n = g@.len();
        let ghost p0 = self.stack@.len() as int;
        let idx = self.next;
        self.index.set(v, idx);
        self.lowlink.set(v, idx);
        self.next = self.next + 1;
        self.stack.push(v);
        self.on_stack.set(v, true);
        proof {
            assert(!a.seen@.contains(v as int));
            vstd::set_lib::lemma_int_range(0, n as int);
            vstd::set_lib::lemma_len_subset(a.seen@.insert(v as int), vstd::set_lib::set_int_range(0, n as int));
        }
        self.seen = Ghost(self.seen@.insert(v as int));
        self.lw = Ghost(self.lw@.update(v as int, v));
        proof {
            lemma_reach_refl(g@, v);
            let f = *self;
            assert forall|x: usize|
                #[trigger] f.fin@.contains(x) && x < n && f.on_stack@[x as int] implies {
                    let y = f.lw@[x as int];
                    &&& y < n
                    &&& f.on_stack@[y as int]
                    &&& f.index@[y as int] == f.lowlink@[x as int]
                    &&& reaches(g@, x, y)
                } by {
                assert(a.fin@.contains(x));
                assert(a.visited(x));
                assert(x != v);
                assert(a.on_stack@[x as int]);
                let y = a.lw@[x as int];
                assert(a.visited(y));
                assert(y != v);
            }
            assert forall|k: int, i: int, j: int|
                0 <= k < f.out@.len() && 0 <= i < f.out@[k]@.len() && 0 <= j < f.out@[k]@.len()
                    implies reaches(g@, #[trigger] f.out@[k]@[i], #[trigger] f.out@[k]@[j]) by {
                assert(a.out@[k]@[i] == f.out@[k]@[i]);
                assert(a.out@[k]@[j] == f.out@[k]@[j]);
            }
            assert(f.reach_inv(g@));
        }
        proof {
            assert forall|x: usize| x < n implies (self.seen@.contains(x as int) <==> #[trigger] self.visited(x)) by {
                if x != v {
                    assert(self.visited(x) == a.visited(x));
                }
            }
            assert forall|x: usize| x < n && #[trigger] self.on_stack@[x as int] implies self.visited(x)
                && self.stack@.contains(x) by {
                if x != v {
                    assert(a.on_stack@[x as int]);
                    let i = choose|i: int| 0 <= i < a.stack@.len() && a.stack@[i] == x;
                    assert(self.stack@[i] == x);
                } else {
                    assert(self.stack@[p0] == v);
                }
            }
            assert forall|i: int, j: int| 0 <= i < j < self.stack@.len() implies self.index@[
                #[trigger] self.stack@[i] as int] < self.index@[#[trigger] self.stack@[j] as int] by {
                if j < p0 {
                    assert(a.stack@[i] == self.stack@[i]);
                    assert(a.stack@[j] == self.stack@[j]);
                } else {
                    assert(self.stack@[i] == a.stack@[i]);
                    assert(a.visited(a.stack@[i]));
                }
            }
            assert forall|x: usize| x < n && #[trigger] self.visited(x) implies self.index@[x as int]
                < self.next && self.lowlink@[x as int] <= self.index@[x as int] by {
                if x != v {
                    assert(a.visited(x));
                }
            }
            assert forall|i: int| 0 <= i < self.stack@.len() implies #[trigger] self.stack@[i] < n
                && self.on_stack@[self.stack@[i] as int] by {
                if i < p0 {
                    assert(self.stack@[i] == a.stack@[i]);
                    assert(a.visited(a.stack@[i]));
                }
            }
            assert forall|x: usize| x < n && #[trigger] self.done(x) implies a.done(x) && x != v by {}
            assert forall|x: usize| x < n && #[trigger] a.done(x) implies self.done(x) && x != v by {}
            assert forall|kk: int, i: int| 0 <= kk < self.out@.len() && 0 <= i < self.out@[kk]@.len() implies {
                let x = #[trigger] self.out@[kk]@[i];
                x < n && self.done(x) && self.comp@[x as int] == kk
            } by {
                assert(a.done(self.out@[kk]@[i]));
            }
            assert forall|x: usize, w: usize| x < n && #[trigger] self.done(x) && #[trigger] has_edge(
                g@,
                x,
                w,
            ) implies self.done(w) && self.comp@[w as int] <= self.comp@[x as int] by {
                assert(a.done(x));
                assert(a.done(w));
                assert(w < n);
            }
            assert forall|x: usize| #[trigger] self.fin@.contains(x) implies x < n && self.visited(x) by {
                assert(a.visited(x));
            }
            assert forall|x: usize, w: usize| x < n && #[trigger] self.fin@.contains(x)
                && self.on_stack@[x as int] && #[trigger] has_edge(g@, x, w) implies self.done(w) || (
            self.on_stack@[w as int] && self.lowlink@[x as int] <= self.index@[w as int]) by {
                assert(a.visited(x));
                assert(x != v);
                assert(w < n) by {
                    let j = choose|j: int| 0 <= j < g@[x as int]@.len() && g@[x as int]@[j] == w;
                    assert(g@[x as int]@[j] < n);
                }
                if a.done(w) {
                } else {
                    assert(a.on_stack@[w as int]);
                    assert(a.visited(w));
                }
            }
            assert forall|i: int| 0 <= i < self.stack@.len() implies self.lowlink@[
                #[trigger] self.stack@[i] as int] >= self.index@[self.stack@[0] as int] by {
                if p0 > 0 {
                    assert(self.stack@[0] == a.stack@[0]);
                    if i < p0 {
                        assert(self.stack@[i] == a.stack@[i]);
                    } else {
                        assert(a.visited(a.stack@[0]));
                    }
                }
            }
        }
        proof {
            assert forall|x: usize| x < n && #[trigger] self.done(x) implies 0 <= self.comp@[x as int]
                < self.out@.len() && self.out@[self.comp@[x as int]]@.contains(x) && self.fin@.contains(x) by {
                assert(a.done(x));
            }
            assert forall|k: int| 0 <= k < self.out@.len() implies self.out@[k]@.len() > 0 && ascending(
                #[trigger] self.out@[k]@,
            ) by {
                assert(self.out@[k] == a.out@[k]);
            }
        }
        assert(self.inv(g@));
        let n_edges = g[v].len();
        let mut j: usize = 0;
        while j < n_edges
            invariant
                self.inv(g@),
                n == g@.len(),
                a.inv(g@),
                a.next == old(self).next,
                v < n,
                !a.visited(v),
                j <= n_edges,
                n_edges == g@[v as int]@.len(),
                self.visited(v),
                self.on_stack@[v as int],
                !self.fin@.contains(v),
                self.index@[v as int] == a.next,
                p0 == a.stack@.len(),
                p0 < self.stack@.len(),
                self.stack@[p0] == v,
                self.stack@.take(p0) == a.stack@,
                forall|i: int|
                    p0 < i < self.stack@.len() ==> self.lowlink@[#[trigger] self.stack@[i] as int]
                        >= self.lowlink@[v as int],
                forall|jj: int|
                    0 <= jj < j ==> {
                        let w = #[trigger] g@[v as int]@[jj];
                        self.done(w) || (self.on_stack@[w as int] && self.lowlink@[v as int]
                            <= self.index@[w as int])
                    },
                a.next < self.next,
                a.out@.len() <= self.out@.len(),
                forall|k: int| 0 <= k < a.out@.len() ==> #[trigger] self.out@[k]@ == a.out@[k]@,
                forall|x: usize|
                    x < n && #[trigger] a.visited(x) ==> self.index@[x as int] == a.index@[x as int]
                        && self.lowlink@[x as int] == a.lowlink@[x as int] && self.on_stack@[x as int]
                        == a.on_stack@[x as int],
                forall|x: usize|
                    x < n && #[trigger] a.done(x) ==> self.comp@[x as int] == a.comp@[x as int],
                forall|x: usize| #[trigger] a.fin@.contains(x) ==> self.fin@.contains(x),
                forall|x: usize|
                    #[trigger] self.fin@.contains(x) && x < n && a.visited(x) ==> a.fin@.contains(x),
                forall|x: usize|
                    x < n && #[trigger] self.visited(x) && !a.visited(x) && x != v
                        ==> self.fin@.contains(x) && self.index@[x as int] > a.next,
                self.reach_inv(g@),
                self.lw@[v as int] < n,
                self.on_stack@[self.lw@[v as int] as int],
                self.index@[self.lw@[v as int] as int] == self.lowlink@[v as int],
                reaches(g@, v, self.lw@[v as int]),
                forall|x: usize| x < n && #[trigger] self.visited(x) && !a.visited(x) ==> reaches(g@, v, x),
                forall|x: usize| x < n && #[trigger] a.visited(x) ==> self.lw@[x as int] == a.lw@[x as int],
                forall|i: int|
                    p0 < i < self.stack@.len() ==> self.lowlink@[#[trigger] self.stack@[i] as int]
                        < self.index@[self.stack@[i] as int],
            decreases n_edges - j,
        {
            let w = g[v][j];
            assert(w < n);
            let ghost c = *self;
            let ghost mut b = *self;
            if self.index[w] == UNVISITED {
                self.connect(g, w);
                proof {
                    b = *self;
                }
                proof {
                    assert(c.visited(v));
                    assert(b.on_stack@[v as int]);
                    assert(!b.fin@.contains(v));
                    assert(b.stack@.take(c.stack@.len() as int) == c.stack@);
                    assert(b.stack@[p0] == c.stack@[p0]);
                    assert(b.stack@.take(p0) =~= c.stack@.take(p0));
                    if b.on_stack@[w as int] {
                        let i = choose|i: int| 0 <= i < b.stack@.len() && b.stack@[i] == w;
                        assert(b.lowlink@[w as int] >= b.index@[b.stack@[0] as int]);
                    } else {
                        assert(b.index@[w as int] >= c.next);
                        assert(c.index@[v as int] < c.next);
                    }
                }
                proof {
                    assert(g@[v as int]@[j as int] == w);
                    lemma_reach_edge(g@, v, w);
                    assert(c.visited(c.lw@[v as int]));
                    assert(b.lw@[v as int] == c.lw@[v as int]);
                    assert forall|x: usize| x < n && #[trigger] b.visited(x) && !a.visited(x) implies reaches(g@, v, x) by {
                        if !c.visited(x) {
                            lemma_reach_trans(g@, v, w, x);
                        }
                    }
                    assert forall|x: usize| x < n && #[trigger] a.visited(x) implies b.lw@[x as int] == a.lw@[x as int] by {
                        assert(c.visited(x));
                    }
                    assert forall|i: int| p0 < i < b.stack@.len() implies b.lowlink@[#[trigger] b.stack@[i] as int]
                        < b.index@[b.stack@[i] as int] by {
                        if i < c.stack@.len() {
                            assert(b.stack@[i] == c.stack@[i]);
                            assert(c.lowlink@[c.stack@[i] as int] < c.index@[c.stack@[i] as int]);
                            assert(c.visited(c.stack@[i]));
                        }
                    }
                }
                if self.lowlink[w] < self.lowlink[v] {
                    let low = self.lowlink[w];
                    let ghost before = *self;
                    self.lowlink.set(v, low);
                    self.lw = Ghost(self.lw@.update(v as int, before.lw@[w as int]));
                    proof {
                        lemma_lower(before, *self, g@, v, low);
                        assert(b.on_stack@[w as int]);
                        assert(b.fin@.contains(w));
                        lemma_reach_trans(g@, v, w, b.lw@[w as int]);
                        assert forall|i: int| p0 < i < self.stack@.len() implies self.lowlink@[#[trigger] self.stack@[i] as int]
                            < self.index@[self.stack@[i] as int] by {
                            assert(self.stack@[i] != v);
                        }
                    }
                }
                proof {
                    let f = *self;
                    assert forall|i: int| p0 < i < f.stack@.len() implies f.lowlink@[
                        #[trigger] f.stack@[i] as int] >= f.lowlink@[v as int] by {
                        assert(f.stack@[i] == b.stack@[i]);
                        if i < c.stack@.len() {
                            assert(b.stack@[i] == c.stack@[i]);
                            assert(c.visited(c.stack@[i]));
                            assert(c.stack@[i] != v);
                        } else {
                            assert(b.on_stack@[w as int]);
                            assert(b.index@[v as int] < b.index@[b.stack@[i] as int]);
                        }
                    }
                    assert(f.on_stack@[w as int] ==> f.lowlink@[v as int] <= f.index@[w as int]);
                }
            } else if self.on_stack[w] {
                if self.index[w] < self.lowlink[v] {
                    let iw = self.index[w];
                    proof {
                        let i = choose|i: int| 0 <= i < self.stack@.len() && self.stack@[i] == w;
                        if i > 0 {
                            assert(self.index@[self.stack@[0] as int] < self.index@[self.stack@[i] as int]);
                        }
                    }
                    let ghost before = *self;
                    self.lowlink.set(v, iw);
                    self.lw = Ghost(self.lw@.update(v as int, w));
                    proof {
                        assert(g@[v as int]@[j as int] == w);
                        lemma_reach_edge(g@, v, w);
                        lemma_lower(before, *self, g@, v, iw);
                        assert forall|i: int| p0 < i < self.stack@.len() implies self.lowlink@[#[trigger] self.stack@[i] as int]
                            < self.index@[self.stack@[i] as int] by {
                            assert(self.stack@[i] != v);
                        }
                        assert forall|i: int| p0 < i < self.stack@.len() implies self.lowlink@[
                            #[trigger] self.stack@[i] as int] >= self.lowlink@[v as int] by {
                            assert(self.stack@[i] != v);
                        }
                    }
                }
            }
            proof {
                let f = *self;
                assert forall|jj: int| 0 <= jj <= j implies {
                    let w2 = #[trigger] g@[v as int]@[jj];
                    f.done(w2) || (f.on_stack@[w2 as int] && f.lowlink@[v as int] <= f.index@[w2 as int])
                } by {
                    let w2 = g@[v as int]@[jj];
                    assert(w2 < n);
                    if jj < j {
                        assert(c.done(w2) || (c.on_stack@[w2 as int] && c.lowlink@[v as int] <= c.index@[w2 as int]));
                        assert(c.visited(w2));
                    } else {
                        assert(f.visited(w2));
                    }
                }
                assert forall|x: usize| x < n && #[trigger] a.visited(x) implies f.index@[x as int] == a.index@[x as int]
                    && f.lowlink@[x as int] == a.lowlink@[x as int] && f.on_stack@[x as int]
                    == a.on_stack@[x as int] by {
                    assert(c.visited(x));
                }
                assert forall|x: usize| x < n && #[trigger] a.done(x) implies f.comp@[x as int] == a.comp@[x as int] by {
                    assert(c.done(x));
                }
                assert forall|x: usize| x < n && #[trigger] f.visited(x) && !a.visited(x) && x != v
                    implies f.fin@.contains(x) && f.index@[x as int] > a.next by {
                    assert(b.visited(x));
                    if c.visited(x) {
                        assert(c.fin@.contains(x));
                        assert(f.index@[x as int] == c.index@[x as int]);
                    } else {
                        assert(b.fin@.contains(x));
                        assert(f.index@[x as int] >= c.next);
                    }
                }
                assert forall|k: int| 0 <= k < a.out@.len() implies #[trigger] f.out@[k]@ == a.out@[k]@ by {
                    assert(f.out@[k]@ == c.out@[k]@);
                }
            }
            j = j + 1;
        }
        let ghost pre = *self;
        self.fin = Ghost(self.fin@.insert(v));
        proof {
            let f = *self;
            assert forall|x: usize| x < n && #[trigger] f.done(x) implies pre.done(x) by {}
            assert forall|x: usize| x < n implies (f.seen@.contains(x as int) <==> #[trigger] f.visited(x)) by {
                assert(pre.visited(x) == f.visited(x));
            }
            assert forall|x: usize| x < n && #[trigger] f.visited(x) implies f.index@[x as int]
                < f.next && f.lowlink@[x as int] <= f.index@[x as int] by {
                assert(pre.visited(x));
            }
            assert forall|x: usize| x < n && #[trigger] f.on_stack@[x as int] implies f.visited(x)
                && f.stack@.contains(x) by {
                assert(pre.visited(x));
            }
            assert forall|k: int, i: int| 0 <= k < f.out@.len() && 0 <= i < f.out@[k]@.len() implies {
                let x = #[trigger] f.out@[k]@[i];
                x < n && f.done(x) && f.comp@[x as int] == k
            } by {
                assert(pre.done(f.out@[k]@[i]));
            }
            assert forall|x: usize, w: usize| x < n && #[trigger] f.done(x) && #[trigger] has_edge(g@, x, w)
                implies f.done(w) && f.comp@[w as int] <= f.comp@[x as int] by {
                assert(pre.done(x));
                assert(pre.done(w));
            }
            assert forall|x: usize| #[trigger] f.fin@.contains(x) implies x < n && f.visited(x) by {}
            assert forall|x: usize| x < n && #[trigger] f.done(x) implies 0 <= f.comp@[x as int]
                < f.out@.len() && f.out@[f.comp@[x as int]]@.contains(x) && f.fin@.contains(x) by {
                assert(pre.done(x));
            }
            assert forall|x: usize, w: usize| x < n && #[trigger] f.fin@.contains(x)
                && f.on_stack@[x as int] && #[trigger] has_edge(g@, x, w) implies f.done(w) || (
            f.on_stack@[w as int] && f.lowlink@[x as int] <= f.index@[w as int]) by {
                if x == v {
                    let jj = choose|jj: int| 0 <= jj < g@[v as int]@.len() && g@[v as int]@[jj] == w;
                    assert(g@[v as int]@[jj] == w);
                }
            }
            assert forall|i: int| p0 <= i < f.stack@.len() implies f.lowlink@[
                #[trigger] f.stack@[i] as int] >= f.lowlink@[v as int] && f.fin@.contains(f.stack@[i]) by {
                let x = f.stack@[i];
                if i > p0 {
                    if a.visited(x) {
                        assert(a.on_stack@[x as int]);
                        assert(a.stack@.contains(x));
                        let k = choose|k: int| 0 <= k < a.stack@.len() && a.stack@[k] == x;
                        assert(f.stack@[k] == x);
                        assert(f.index@[f.stack@[k] as int] < f.index@[f.stack@[i] as int]);
                    }
                    assert(x != v);
                }
            }
            assert(f.inv(g@));
            assert forall|x: usize|
                #[trigger] f.fin@.contains(x) && x < n && f.on_stack@[x as int] implies {
                    let y = f.lw@[x as int];
                    &&& y < n
                    &&& f.on_stack@[y as int]
                    &&& f.index@[y as int] == f.lowlink@[x as int]
                    &&& reaches(g@, x, y)
                } by {
                if x != v {
                    assert(pre.fin@.contains(x));
                }
            }
            assert(f.reach_inv(g@));
            assert forall|i: int| p0 <= i < f.stack@.len() implies reaches(g@, v, #[trigger] f.stack@[i]) by {
                let x = f.stack@[i];
                if i > p0 {
                    assert(f.index@[f.stack@[p0] as int] < f.index@[f.stack@[i] as int]);
                    if a.visited(x) {
                        assert(f.index@[x as int] == a.index@[x as int]);
                    }
                } else {
                    lemma_reach_refl(g@, v);
                }
            }
        }
        let ghost o2 = *self;
        if self.lowlink[v] == self.index[v] {
            self.close(g, v, Ghost(p0));
        }
        proof {
            let f = *self;
            if o2.lowlink@[v as int] == o2.index@[v as int] {
                assert(f.stack@ =~= a.stack@.take(a.stack@.len() as int));
            } else {
                assert(f.stack@.take(p0) =~= a.stack@);
            }
            assert forall|x: usize| x < n && #[trigger] a.visited(x) implies f.index@[x as int] == a.index@[x as int]
                && f.lowlink@[x as int] == a.lowlink@[x as int] && f.on_stack@[x as int]
                == a.on_stack@[x as int] by {
                assert(a.index@[x as int] < a.next);
                assert(o2.on_stack@[x as int] == a.on_stack@[x as int]);
            }
            assert forall|x: usize| x < n && #[trigger] a.done(x) implies f.comp@[x as int] == a.comp@[x as int] by {
                assert(a.index@[x as int] < a.next);
                assert(o2.done(x));
            }
            assert forall|x: usize| x < n && #[trigger] f.visited(x) && !a.visited(x) implies f.fin@.contains(x)
                && f.index@[x as int] >= a.next by {
                assert(pre.visited(x));
            }
            assert forall|x: usize| x < n && #[trigger] f.visited(x) && !a.visited(x) implies reaches(g@, v, x) by {
                assert(pre.visited(x));
            }
            assert forall|x: usize| x < n && #[trigger] a.visited(x) implies f.lw@[x as int] == a.lw@[x as int] by {}
            assert forall|i: int| p0 <= i < f.stack@.len() implies f.lowlink@[
                #[trigger] f.stack@[i] as int] < f.index@[f.stack@[i] as int] by {
                if i > p0 {
                    assert(o2.stack@[i] == f.stack@[i]);
                }
            }
        }
    }

    /// Pops the component rooted at `v`, which sits at stack position `p0`,
    /// and emits it sorted ascending.
    fn close(&mut self, g: &[Vec<usize>], v: usize, Ghost(p0): Ghost<int>)
        requires
            old(self).inv(g@),
            v < g@.len(),
            0 <= p0 < old(self).stack@.len(),
            old(self).stack@[p0] == v,
            old(self).lowlink@[v as int] == old(self).index@[v as int],
            forall|i: int|
                p0 <= i < old(self).stack@.len() ==> old(self).lowlink@[
                    #[trigger] old(self).stack@[i] as int] >= old(self).lowlink@[v as int]
                    && old(self).fin@.contains(old(self).stack@[i]),
            old(self).reach_inv(g@),
            forall|i: int|
                p0 < i < old(self).stack@.len() ==> old(self).lowlink@[
                    #[trigger] old(self).stack@[i] as int] < old(self).index@[old(self).stack@[i] as int],
            forall|i: int| p0 <= i < old(self).stack@.len() ==> reaches(g@, v, #[trigger] old(self).stack@[i]),
        ensures
            final(self).inv(g@),
            final(self).reach_inv(g@),
            final(self).lw@ == old(self).lw@,
            final(self).index@ == old(self).index@,
            final(self).lowlink@ == old(self).lowlink@,
            final(self).next == old(self).next,
            final(self).fin@ == old(self).fin@,
            final(self).seen@ == old(self).seen@,
            final(self).stack@ == old(self).stack@.take(p0),
            final(self).out@.len() == old(self).out@.len() + 1,
            forall|k: int|
                0 <= k < old(self).out@.len() ==> #[trigger] final(self).out@[k]@ == old(
                    self,
                ).out@[k]@,
            forall|x: usize|
                x < g@.len() && #[trigger] final(self).on_stack@[x as int] != old(
                    self,
                ).on_stack@[x as int] ==> old(self).on_stack@[x as int] && old(self).index@[x as int]
                    >= old(self).index@[v as int],
            forall|x: usize|
                x < g@.len() && #[trigger] old(self).done(x) ==> final(self).comp@[x as int] == old(
                    self,
                ).comp@[x as int],
            !final(self).on_stack@[v as int],
    {
        let ghost n = g@.len();
        let ghost o = *self;
        let ghost s0 = self.stack@;
        let mut component: Vec<usize> = Vec::new();
        loop
            invariant_except_break
                p0 < self.stack@.len(),
            invariant
                o.inv(g@),
                n == g@.len(),
                0 <= p0 < s0.len(),
                s0 == o.stack@,
                s0[p0] == v,
                v < n,
                p0 <= self.stack@.len() <= s0.len(),
                self.stack@ == s0.take(self.stack@.len() as int),
                component@.len() == s0.len() - self.stack@.len(),
                forall|i: int|
                    0 <= i < component@.len() ==> #[trigger] component@[i] == s0[s0.len() - 1 - i],
                self.on_stack@.len() == n,
                forall|i: int| self.stack@.len() <= i < s0.len() ==> !self.on_stack@[#[trigger] s0[i] as int],
                forall|x: usize|
                    x < n && #[trigger] self.on_stack@[x as int] != o.on_stack@[x as int]
                        ==> o.on_stack@[x as int] && o.index@[x as int] >= o.index@[v as int],
                self.index@ == o.index@,
                self.lowlink@ == o.lowlink@,
                self.next == o.next,
                self.fin@ == o.fin@,
                self.seen@ == o.seen@,
                self.out@ == o.out@,
                self.comp@ == o.comp@,
                self.lw@ == o.lw@,
            ensures
                self.stack@.len() == p0,
            decreases self.stack@.len(),
        {
            let ghost len = self.stack@.len() as int;
            let w = self.stack.pop().unwrap();
            assert(w == s0[len - 1]);
            self.on_stack.set(w, false);
            component.push(w);
            proof {
                assert(s0.take(len - 1) =~= s0.take(len).take(len - 1));
                if len - 1 != p0 {
                    assert(o.index@[s0[p0] as int] < o.index@[s0[len - 1] as int]);
                }
            }
            if w == v {
                break;
            }
        }
        let ghost k = self.out@.len() as int;
        let ghost popped = |x: usize| o.on_stack@[x as int] && !self.on_stack@[x as int];
        proof {
            assert forall|i: int, j: int| 0 <= i < j < component@.len() implies component@[i]
                != component@[j] by {
                assert(o.index@[s0[s0.len() - 1 - j] as int] < o.index@[s0[s0.len() - 1 - i] as int]);
            }
            assert forall|i: int| p0 <= i < s0.len() implies #[trigger] popped(s0[i]) by {
                assert(o.on_stack@[s0[i] as int]);
            }
            assert forall|x: usize| x < n && #[trigger] popped(x) implies exists|i: int|
                p0 <= i < s0.len() && s0[i] == x by {
                assert(o.stack@.contains(x));
                let i = choose|i: int| 0 <= i < s0.len() && s0[i] == x;
                if i < p0 {
                    assert(o.index@[s0[i] as int] < o.index@[s0[p0] as int]);
                }
            }
            assert forall|x: usize| x < n implies (component@.contains(x) <==> #[trigger] popped(x)) by {
                if component@.contains(x) {
                    let i = choose|i: int| 0 <= i < component@.len() && component@[i] == x;
                    assert(popped(s0[s0.len() - 1 - i]));
                }
                if popped(x) {
                    let i = choose|i: int| p0 <= i < s0.len() && s0[i] == x;
                    assert(component@[s0.len() - 1 - i] == x);
                }
            }
        }
        let sorted = sort_ascending(component);
        self.comp = Ghost(
            Seq::new(
                n,
                |x: int| if o.on_stack@[x] && !self.on_stack@[x] { k } else { o.comp@[x] },
            ),
        );
        self.out.push(sorted);
        proof {
            let f = *self;
            assert(f.out@[k]@ == sorted@);
            assert forall|x: usize| x < n implies (f.seen@.contains(x as int) <==> #[trigger] f.visited(x)) by {
                assert(o.visited(x) == f.visited(x));
            }
            assert forall|x: usize| x < n && #[trigger] f.visited(x) implies f.index@[x as int]
                < f.next && f.lowlink@[x as int] <= f.index@[x as int] by {
                assert(o.visited(x));
            }
            assert forall|x: usize| x < n && #[trigger] f.on_stack@[x as int] implies f.visited(x)
                && f.stack@.contains(x) by {
                assert(o.on_stack@[x as int]);
                assert(o.stack@.contains(x));
                let i = choose|i: int| 0 <= i < s0.len() && s0[i] == x;
                if i >= p0 {
                    assert(popped(s0[i]));
                }
                assert(f.stack@[i] == x);
            }
            assert forall|i: int| 0 <= i < f.stack@.len() implies #[trigger] f.stack@[i] < n
                && f.on_stack@[f.stack@[i] as int] by {
                assert(f.stack@[i] == s0[i]);
                assert(o.index@[s0[i] as int] < o.index@[s0[p0] as int]);
            }
            assert forall|i: int, j: int| 0 <= i < j < f.stack@.len() implies f.index@[
                #[trigger] f.stack@[i] as int] < f.index@[#[trigger] f.stack@[j] as int] by {
                assert(f.stack@[i] == s0[i]);
                assert(f.stack@[j] == s0[j]);
            }
            assert forall|i: int| 0 <= i < f.stack@.len() implies f.lowlink@[
                #[trigger] f.stack@[i] as int] >= f.index@[f.stack@[0] as int] by {
                assert(f.stack@[i] == s0[i]);
                assert(f.stack@[0] == s0[0]);
            }
            assert forall|kk: int| 0 <= kk < f.out@.len() implies f.out@[kk]@.len() > 0
                && ascending(#[trigger] f.out@[kk]@) by {
                if kk == k {
                    assert(component@.len() > 0);
                } else {
                    assert(f.out@[kk]@ == o.out@[kk]@);
                }
            }
            assert forall|kk: int, i: int| 0 <= kk < f.out@.len() && 0 <= i < f.out@[kk]@.len() implies {
                let x = #[trigger] f.out@[kk]@[i];
                x < n && f.done(x) && f.comp@[x as int] == kk
            } by {
                let x = f.out@[kk]@[i];
                if kk == k {
                    assert(sorted@.contains(x));
                    assert(component@.contains(x));
                    let j = choose|j: int| 0 <= j < component@.len() && component@[j] == x;
                    assert(x == s0[s0.len() - 1 - j]);
                    assert(popped(x));
                } else {
                    assert(f.out@[kk]@ == o.out@[kk]@);
                    assert(o.done(x));
                    assert(!popped(x));
                }
            }
            assert forall|x: usize| x < n && #[trigger] f.done(x) implies 0 <= f.comp@[x as int]
                < f.out@.len() && f.out@[f.comp@[x as int]]@.contains(x) && f.fin@.contains(x) by {
                if popped(x) {
                    assert(component@.contains(x));
                    assert(sorted@.contains(x));
                    let i = choose|i: int| p0 <= i < s0.len() && s0[i] == x;
                    assert(o.fin@.contains(s0[i]));
                } else {
                    assert(o.done(x));
                    assert(f.out@[o.comp@[x as int]]@ == o.out@[o.comp@[x as int]]@);
                }
            }
            assert forall|x: usize, w: usize| x < n && #[trigger] f.done(x) && #[trigger] has_edge(
                g@,
                x,
                w,
            ) implies f.done(w) && f.comp@[w as int] <= f.comp@[x as int] by {
                assert(w < n) by {
                    let j = choose|j: int| 0 <= j < g@[x as int]@.len() && g@[x as int]@[j] == w;
                    assert(g@[x as int]@[j] < n);
                }
                if popped(x) {
                    let i = choose|i: int| p0 <= i < s0.len() && s0[i] == x;
                    assert(o.lowlink@[s0[i] as int] >= o.lowlink@[v as int]);
                    assert(o.fin@.contains(x));
                    if o.done(w) {
                        assert(!popped(w));
                        assert(o.comp@[w as int] < k);
                    } else {
                        assert(o.on_stack@[w as int]);
                        assert(o.stack@.contains(w));
                        let j = choose|j: int| 0 <= j < s0.len() && s0[j] == w;
                        if j < p0 {
                            assert(o.index@[s0[j] as int] < o.index@[s0[p0] as int]);
                        }
                        assert(popped(s0[j]));
                    }
                } else {
                    assert(o.done(x));
                    assert(o.done(w));
                    assert(!popped(w));
                }
            }
            assert forall|x: usize, w: usize| x < n && #[trigger] f.fin@.contains(x)
                && f.on_stack@[x as int] && #[trigger] has_edge(g@, x, w) implies f.done(w) || (
            f.on_stack@[w as int] && f.lowlink@[x as int] <= f.index@[w as int]) by {
                assert(o.on_stack@[x as int]);
                assert(w < n) by {
                    let j = choose|j: int| 0 <= j < g@[x as int]@.len() && g@[x as int]@[j] == w;
                    assert(g@[x as int]@[j] < n);
                }
                if o.on_stack@[w as int] && !f.on_stack@[w as int] {
                    assert(popped(w));
                }
            }
            assert(popped(s0[p0]));
            assert forall|x: usize|
                #[trigger] f.fin@.contains(x) && x < n && f.on_stack@[x as int] implies {
                    let y = f.lw@[x as int];
                    &&& y < n
                    &&& f.on_stack@[y as int]
                    &&& f.index@[y as int] == f.lowlink@[x as int]
                    &&& reaches(g@, x, y)
                } by {
                assert(o.on_stack@[x as int]);
                let y = o.lw@[x as int];
                let i = choose|i: int| 0 <= i < f.stack@.len() && f.stack@[i] == x;
                assert(f.stack@[i] == s0[i]);
                assert(o.index@[s0[i] as int] < o.index@[s0[p0] as int]);
                assert(o.visited(x));
                if popped(y) {
                    assert(o.index@[y as int] >= o.index@[v as int]);
                }
            }
            assert forall|kk: int, i: int, j: int|
                0 <= kk < f.out@.len() && 0 <= i < f.out@[kk]@.len() && 0 <= j < f.out@[kk]@.len()
                    implies reaches(g@, #[trigger] f.out@[kk]@[i], #[trigger] f.out@[kk]@[j]) by {
                if kk == k {
                    let x = f.out@[kk]@[i];
                    let y = f.out@[kk]@[j];
                    assert(sorted@.contains(x));
                    assert(sorted@.contains(y));
                    assert(popped(x));
                    assert(popped(y));
                    let ix = choose|ii: int| p0 <= ii < s0.len() && s0[ii] == x;
                    let iy = choose|ii: int| p0 <= ii < s0.len() && s0[ii] == y;
                    lemma_reach_root(o, g@, v, p0, ix);
                    assert(reaches(g@, v, o.stack@[iy]));
                    lemma_reach_trans(g@, x, v, y);
                } else {
                    assert(f.out@[kk]@ == o.out@[kk]@);
                }
            }
        }
    }
}

/// A node of the closing component reaches its root: each one reaches the
/// stacked node its lowlink names, which stands lower in the component.
proof fn lemma_reach_root(o: Walk, g: Seq<Vec<usize>>, v: usize, p0: int, i: int)
    requires
        o.inv(g),
        o.reach_inv(g),
        0 <= p0 <= i < o.stack@.len(),
        o.stack@[p0] == v,
        o.lowlink@[v as int] == o.index@[v as int],
        forall|ii: int|
            p0 <= ii < o.stack@.len() ==> o.lowlink@[#[trigger] o.stack@[ii] as int] >= o.lowlink@[v as int]
                && o.fin@.contains(o.stack@[ii]),
        forall|ii: int|
            p0 < ii < o.stack@.len() ==> o.lowlink@[#[trigger] o.stack@[ii] as int] < o.index@[o.stack@[ii] as int],
    ensures
        reaches(g, o.stack@[i], v),
    decreases i,
{
    let x = o.stack@[i];
    if i == p0 {
        lemma_reach_refl(g, v);
    } else {
        assert(x < g.len() && o.on_stack@[x as int]);
        assert(o.fin@.contains(x));
        let y = o.lw@[x as int];
        assert(o.stack@.contains(y));
        let j = choose|j: int| 0 <= j < o.stack@.len() && o.stack@[j] == y;
        if j >= i {
            if j > i {
                assert(o.index@[o.stack@[i] as int] < o.index@[o.stack@[j] as int]);
            }
        }
        if j < p0 {
            assert(o.index@[o.stack@[j] as int] < o.index@[o.stack@[p0] as int]);
        }
        lemma_reach_root(o, g, v, p0, j);
        lemma_reach_trans(g, x, y, v);
    }
}

/// Lowering the lowlink of an unfinished stacked node to a value that
/// stays at or above the stack bottom's index keeps the invariant.
proof fn lemma_lower(s: Walk, t: Walk, g: Seq<Vec<usize>>, v: usize, val: u32)
    requires
        t.lowlink@ == s.lowlink@.update(v as int, val),
        t.index@ == s.index@,
        t.on_stack@ == s.on_stack@,
        t.stack@ == s.stack@,
        t.next == s.next,
        t.out@ == s.out@,
        t.comp@ == s.comp@,
        t.fin@ == s.fin@,
        t.seen@ == s.seen@,
        s.inv(g),
        v < g.len(),
        s.on_stack@[v as int],
        !s.fin@.contains(v),
        val <= s.lowlink@[v as int],
        s.stack@.len() > 0,
        val >= s.index@[s.stack@[0] as int],
        s.reach_inv(g),
        t.lw@.len() == s.lw@.len(),
        forall|x: int| 0 <= x < s.lw@.len() && x != v ==> t.lw@[x] == s.lw@[x],
    ensures
        t.inv(g),
        t.reach_inv(g),
{
    assert forall|x: usize|
        #[trigger] t.fin@.contains(x) && x < g.len() && t.on_stack@[x as int] implies {
            let y = t.lw@[x as int];
            &&& y < g.len()
            &&& t.on_stack@[y as int]
            &&& t.index@[y as int] == t.lowlink@[x as int]
            &&& reaches(g, x, y)
        } by {
        assert(x != v);
    }
    assert forall|x: usize| x < g.len() && #[trigger] t.visited(x) implies t.index@[x as int]
        < t.next && t.lowlink@[x as int] <= t.index@[x as int] by {
        assert(s.visited(x));
    }
    assert forall|x: usize| x < g.len() && #[trigger] t.on_stack@[x as int] implies t.visited(x)
        && t.stack@.contains(x) by {
        assert(s.on_stack@[x as int]);
    }
    assert forall|x: usize| x < g.len() implies (t.seen@.contains(x as int) <==> #[trigger] t.visited(x)) by {
        assert(s.visited(x) == t.visited(x));
    }
    assert forall|x: usize| x < g.len() && #[trigger] t.done(x) implies s.done(x) by {}
    assert forall|x: usize| x < g.len() && #[trigger] s.done(x) implies t.done(x) by {}
    assert forall|k: int, i: int| 0 <= k < t.out@.len() && 0 <= i < t.out@[k]@.len() implies {
        let x = #[trigger] t.out@[k]@[i];
        x < g.len() && t.done(x) && t.comp@[x as int] == k
    } by {
        assert(s.done(t.out@[k]@[i]));
    }
    assert forall|x: usize, w: usize| x < g.len() && #[trigger] t.done(x) && #[trigger] has_edge(g, x, w)
        implies t.done(w) && t.comp@[w as int] <= t.comp@[x as int] by {
        assert(s.done(x));
        assert(s.done(w));
    }
    assert forall|x: usize| #[trigger] t.fin@.contains(x) implies x < g.len() && t.visited(x) by {
        assert(s.visited(x));
    }
    assert forall|x: usize, w: usize| x < g.len() && #[trigger] t.fin@.contains(x)
        && t.on_stack@[x as int] && #[trigger] has_edge(g, x, w) implies t.done(w) || (
    t.on_stack@[w as int] && t.lowlink@[x as int] <= t.index@[w as int]) by {
        assert(x != v);
        assert(w < g.len()) by {
            let j = choose|j: int| 0 <= j < g[x as int]@.len() && g[x as int]@[j] == w;
            assert(g[x as int]@[j] < g.len());
        }
        if s.done(w) {
        } else {
            assert(s.on_stack@[w as int]);
        }
    }
    assert forall|i: int| 0 <= i < t.stack@.len() implies t.lowlink@[#[trigger] t.stack@[i] as int]
        >= t.index@[t.stack@[0] as int] by {
    }
}

/// The elements of `items`, sorted ascending.
fn sort_ascending(items: Vec<usize>) -> (r: Vec<usize>)
    requires
        forall|i: int, j: int| 0 <= i < j < items@.len() ==> items@[i] != items@[j],
    ensures
        ascending(r@),
        r@.len() == items@.len(),
        forall|x: usize| r@.contains(x) <==> items@.contains(x),
{
    let mut r: Vec<usize> = Vec::new();
    let mut i: usize = 0;
    while i < items.len()
        invariant
            i <= items@.len(),
            ascending(r@),
            r@.len() == i,
            forall|x: usize| r@.contains(x) <==> items@.take(i as int).contains(x),
            forall|i: int, j: int| 0 <= i < j < items@.len() ==> items@[i] != items@[j],
        decreases items@.len() - i,
    {
        let e = items[i];
        let mut p: usize = 0;
        while p < r.len() && r[p] < e
            invariant
                p <= r@.len(),
                forall|q: int| 0 <= q < p ==> r@[q] < e,
            decreases r@.len() - p,
        {
            p = p + 1;
        }
        proof {
            assert(!items@.take(i as int).contains(e)) by {
                if items@.take(i as int).contains(e) {
                    let q = choose|q: int| 0 <= q < i && items@.take(i as int)[q] == e;
                    assert(items@[q] == items@[i as int]);
                }
            }
            assert(!r@.contains(e));
            if p < r@.len() {
                assert(r@[p as int] != e);
            }
        }
        let ghost r0 = r@;
        r.insert(p, e);
        proof {
            r0.insert_ensures(p as int, e);
            let t = items@.take(i as int);
            assert(items@.take(i + 1) =~= t.push(e));
            assert forall|x: usize| r@.contains(x) <==> items@.take(i + 1).contains(x) by {
                vstd::seq_lib::lemma_seq_contains_after_push(t, e, x);
                if r@.contains(x) {
                    let q = choose|q: int| 0 <= q < r@.len() && r@[q] == x;
                    if q < p {
                        assert(r0[q] == x);
                        assert(r0.contains(x));
                    } else if q > p {
                        assert(r0[q - 1] == x);
                        assert(r0.contains(x));
                    }
                }
                if items@.take(i + 1).contains(x) {
                    if x == e {
                        assert(r@[p as int] == e);
                    } else {
                        assert(t.contains(x));
                        assert(r0.contains(x));
                        let q = choose|q: int| 0 <= q < r0.len() && r0[q] == x;
                        if q < p {
                            assert(r@[q] == x);
                        } else {
                            assert(r@[q + 1] == x);
                        }
                    }
                }
            }
            assert forall|a: int, b: int| 0 <= a < b < r@.len() implies r@[a] < r@[b] by {
                if b < p {
                } else if a < p && b == p {
                } else if a < p && b > p {
                    assert(r0[a] < r0[b - 1]);
                } else if a == p {
                    assert(r@[b] == r0[b - 1]);
                    if b - 1 > p {
                        assert(r0[p as int] < r0[b - 1]);
                    }
                } else {
                    assert(r0[a - 1] < r0[b - 1]);
                }
            }
        }
        i = i + 1;
    }
    proof {
        assert(items@.take(i as int) =~= items@);
    }
    r
}

/// Tarjan's strongly-connected-components algorithm.
///
/// Components are emitted callees-first (reverse topological order of the
/// condensation), each sorted ascending.
pub fn tarjan(graph: &[Vec<usize>]) -> (r: Vec<Vec<usize>>)
    requires
        edges_in_range(graph@),
        graph@.len() < UNVISITED,
    ensures
        partitions(r@, graph@.len()),
        callees_first(graph@, r@),
        strongly_connected(graph@, r@),
        first_reached_first(graph@, r@),
{
    let n = graph.len();
    let mut index: Vec<u32> = Vec::new();
    let mut lowlink: Vec<u32> = Vec::new();
    let mut on_stack: Vec<bool> = Vec::new();
    let mut i: usize = 0;
    while i < n
        invariant
            i <= n,
            index@.len() == i,
            lowlink@.len() == i,
            on_stack@.len() == i,
            forall|x: int| 0 <= x < i ==> index@[x] == UNVISITED && !on_stack@[x],
        decreases n - i,
    {
        index.push(UNVISITED);
        lowlink.push(0);
        on_stack.push(false);
        i = i + 1;
    }
    let mut walk = Walk {
        index,
        lowlink,
        on_stack,
        stack: Vec::new(),
        next: 0,
        out: Vec::new(),
        comp: Ghost(Seq::new(n as nat, |x: int| 0)),
        fin: Ghost(Set::empty()),
        seen: Ghost(Set::empty()),
        lw: Ghost(Seq::new(n as nat, |x: int| 0usize)),
    };
    let mut v: usize = 0;
    while v < n
        invariant
            walk.inv(graph@),
            walk.reach_inv(graph@),
            n == graph@.len(),
            v <= n,
            walk.stack@.len() == 0,
            forall|x: usize| x < v ==> #[trigger] walk.visited(x),
            forall|x: usize| x < n ==> (#[trigger] walk.visited(x) <==> reached_below(graph@, v as int, x)),
            first_reached_first(graph@, walk.out@),
        decreases n - v,
    {
        let ghost before = walk;
        if walk.index[v] == UNVISITED {
            walk.connect(graph, v);
            proof {
                if walk.on_stack@[v as int] {
                    assert(walk.stack@[0] == v);
                }
            }
        }
        proof {
            assert forall|x: usize| x < v + 1 implies #[trigger] walk.visited(x) by {
                if x < v {
                    assert(before.visited(x));
                }
            }
            let g = graph@;
            let vi = v as int;
            let a = before.out@.len();
            assert forall|x: usize| x < n && before.visited(x) implies #[trigger] walk.visited(x) by {}
            assert forall|x: usize| x < n implies (#[trigger] walk.visited(x) <==> reached_below(g, vi + 1, x)) by {
                if walk.visited(x) {
                    if before.visited(x) {
                        lemma_reached_below_mono(g, vi, vi + 1, x);
                    } else {
                        assert(reaches(g, v, x));
                        assert(v < vi + 1 && reaches(g, v, x));
                    }
                }
                if reached_below(g, vi + 1, x) {
                    let u = choose|u: usize| u < vi + 1 && #[trigger] reaches(g, u, x);
                    assert(walk.visited(u));
                    let p = choose|p: Seq<usize>| #[trigger] is_path(g, p) && p[0] == u && p.last() == x;
                    lemma_visited_closed(walk, g, p);
                }
            }
            assert forall|k: int, x: usize|
                0 <= k < walk.out@.len() && #[trigger] walk.out@[k]@.contains(x) implies (k < a <==> before.visited(x)) by {
                let i = choose|i: int| 0 <= i < walk.out@[k]@.len() && walk.out@[k]@[i] == x;
                if k < a {
                    assert(before.out@[k]@[i] == x);
                } else if before.visited(x) {
                    if before.on_stack@[x as int] {
                        assert(before.stack@.contains(x));
                    }
                    assert(before.done(x));
                    assert(walk.comp@[x as int] == before.comp@[x as int]);
                }
            }
            assert forall|s: int, k1: int, k2: int, x: usize, y: usize|
                #![trigger walk.out@[k1]@.contains(x), walk.out@[k2]@.contains(y), reached_below(g, s, x)]
                0 <= k1 < walk.out@.len() && 0 <= k2 < walk.out@.len() && walk.out@[k1]@.contains(x)
                    && walk.out@[k2]@.contains(y) && reached_below(g, s, x) && !reached_below(g, s, y)
                implies k1 < k2 by {
                let i = choose|i: int| 0 <= i < walk.out@[k1]@.len() && walk.out@[k1]@[i] == x;
                let j = choose|j: int| 0 <= j < walk.out@[k2]@.len() && walk.out@[k2]@[j] == y;
                assert(x < n && y < n);
                if k1 < a && k2 < a {
                    assert(before.out@[k1]@ == walk.out@[k1]@);
                    assert(before.out@[k2]@ == walk.out@[k2]@);
                } else if k1 >= a && k2 < a {
                    assert(!before.visited(x));
                    assert(before.visited(y));
                    assert(reached_below(g, vi, y));
                    assert(!reached_below(g, vi, x));
                    if s <= vi {
                        lemma_reached_below_mono(g, s, vi, x);
                    } else {
                        lemma_reached_below_mono(g, vi, s, y);
                    }
                } else if k1 >= a && k2 >= a {
                    assert(!before.visited(x));
                    assert(!before.visited(y));
                    assert(!reached_below(g, vi, x));
                    assert(reaches(g, v, y));
                    if s <= vi {
                        lemma_reached_below_mono(g, s, vi, x);
                    } else {
                        assert(v < s && reaches(g, v, y));
                    }
                }
            }
        }
        v = v + 1;
    }
    proof {
        let r = walk.out@;
        assert forall|x: usize| x < n implies #[trigger] covered(r, x) by {
            assert(walk.visited(x));
            if walk.on_stack@[x as int] {
                assert(walk.stack@.contains(x));
            }
            assert(walk.done(x));
            let k = walk.comp@[x as int];
            assert(r[k]@.contains(x));
        }
        assert forall|k1: int, k2: int, x: usize|
            0 <= k1 < r.len() && 0 <= k2 < r.len() && #[trigger] r[k1]@.contains(x)
                && #[trigger] r[k2]@.contains(x) implies k1 == k2 by {
            let i1 = choose|i: int| 0 <= i < r[k1]@.len() && r[k1]@[i] == x;
            let i2 = choose|i: int| 0 <= i < r[k2]@.len() && r[k2]@[i] == x;
            assert(walk.comp@[r[k1]@[i1] as int] == k1);
            assert(walk.comp@[r[k2]@[i2] as int] == k2);
        }
        assert forall|k1: int, k2: int, u: usize, w: usize|
            0 <= k1 < r.len() && 0 <= k2 < r.len() && #[trigger] r[k1]@.contains(u)
                && #[trigger] r[k2]@.contains(w) && has_edge(graph@, u, w) implies k2 <= k1 by {
            let i1 = choose|i: int| 0 <= i < r[k1]@.len() && r[k1]@[i] == u;
            let i2 = choose|i: int| 0 <= i < r[k2]@.len() && r[k2]@[i] == w;
            assert(walk.comp@[r[k1]@[i1] as int] == k1);
            assert(walk.comp@[r[k2]@[i2] as int] == k2);
        }
        assert forall|k: int, x: usize, y: usize|
            0 <= k < r.len() && #[trigger] r[k]@.contains(x) && #[trigger] r[k]@.contains(y)
                implies reaches(graph@, x, y) by {
            let i = choose|i: int| 0 <= i < r[k]@.len() && r[k]@[i] == x;
            let j = choose|j: int| 0 <= j < r[k]@.len() && r[k]@[j] == y;
            assert(reaches(graph@, r[k]@[i], r[k]@[j]));
        }
        assert forall|k1: int, k2: int, x: usize, y: usize|
            0 <= k1 < r.len() && 0 <= k2 < r.len() && #[trigger] r[k1]@.contains(x)
                && #[trigger] r[k2]@.contains(y) && reaches(graph@, x, y) && reaches(graph@, y, x)
                implies k1 == k2 by {
            let i = choose|i: int| 0 <= i < r[k1]@.len() && r[k1]@[i] == x;
            assert(x < n);
            let p = choose|p: Seq<usize>| #[trigger] is_path(graph@, p) && p[0] == x && p.last() == y;
            lemma_path_down(graph@, r, p, k1, k2);
            let q = choose|p: Seq<usize>| #[trigger] is_path(graph@, p) && p[0] == y && p.last() == x;
            let j = choose|j: int| 0 <= j < r[k2]@.len() && r[k2]@[j] == y;
            assert(y < n);
            lemma_path_down(graph@, r, q, k2, k1);
        }
    }
    walk.out
}

} // verus!
