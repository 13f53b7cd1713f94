//! Union-find over a fixed node set `0..n`, used to decide whether a net's copper joins
//! all of its pads.
//!
//! The abstract view of a [`DisjointSet`] is the sequence of class representatives: node
//! `i` belongs to the class named by `view[i]`. Two nodes are connected exactly when they
//! share a representative, and the number of classes is the number of nodes that are the
//! first of their class.

use vstd::prelude::*;

verus! {

/// Every representative is a node of the set and represents itself.
pub open spec fn is_partition(s: Seq<int>) -> bool {
    forall|i: int| #![trigger s[i]] 0 <= i < s.len() ==> 0 <= s[i] < s.len() && s[s[i]] == s[i]
}

/// Node `i` is connected to node `j`.
pub open spec fn connected(s: Seq<int>, i: int, j: int) -> bool {
    s[i] == s[j]
}

/// The classes after merging the class of `a` into the class of `b`.
pub open spec fn merged(s: Seq<int>, a: int, b: int) -> Seq<int> {
    Seq::new(s.len(), |j: int| if s[j] == s[a] { s[b] } else { s[j] })
}

/// Node `i` is the first node of its class.
pub open spec fn first_of_class(s: Seq<int>, i: int) -> bool {
    forall|j: int| 0 <= j < i ==> s[j] != s[i]
}

/// The number of classes among the first `k` nodes.
pub open spec fn classes_upto(s: Seq<int>, k: int) -> nat
    decreases k,
{
    if k <= 0 {
        0
    } else {
        classes_upto(s, k - 1) + if first_of_class(s, k - 1) { 1nat } else { 0nat }
    }
}

/// The number of classes.
pub open spec fn class_count(s: Seq<int>) -> nat {
    classes_upto(s, s.len() as int)
}

/// Every node alone in its own class.
pub open spec fn singletons(n: nat) -> Seq<int> {
    Seq::new(n, |i: int| i)
}

/// The classes after merging along each edge in order; an edge with a missing or
/// out-of-range end joins nothing.
pub open spec fn joined(n: nat, edges: Seq<(Option<usize>, Option<usize>)>) -> Seq<int>
    decreases edges.len(),
{
    if edges.len() == 0 {
        singletons(n)
    } else {
        let s = joined(n, edges.drop_last());
        let e = edges.last();
        if e.0 is Some && e.1 is Some && e.0->0 < n && e.1->0 < n {
            merged(s, e.0->0 as int, e.1->0 as int)
        } else {
            s
        }
    }
}

/// Merging keeps the classes a partition, connects the two nodes, and connects nothing
/// else that was not already connected through them.
pub proof fn lemma_merged(s: Seq<int>, a: int, b: int)
    requires
        is_partition(s),
        0 <= a < s.len(),
        0 <= b < s.len(),
    ensures
        is_partition(merged(s, a, b)),
        connected(merged(s, a, b), a, b),
        forall|i: int, j: int|
            0 <= i < s.len() && 0 <= j < s.len() ==> (connected(merged(s, a, b), i, j) <==> (
            connected(s, i, j) || (connected(s, i, a) && connected(s, j, b)) || (connected(
                s,
                i,
                b,
            ) && connected(s, j, a)))),
{
    let t = merged(s, a, b);
    assert forall|i: int| 0 <= i < t.len() implies 0 <= t[i] < t.len() && t[t[i]] == t[i] by {
        assert(0 <= s[i] < s.len());
        assert(s[s[i]] == s[i]);
        assert(s[s[b]] == s[b]);
    }
}

/// With no edge every node is its own class: `n` classes.
pub proof fn lemma_singletons(n: nat)
    ensures
        is_partition(singletons(n)),
        class_count(singletons(n)) == n,
{
    let s = singletons(n);
    assert forall|k: int| 0 <= k <= n implies classes_upto(s, k) == k by {
        lemma_singletons_upto(n, k);
    }
}

proof fn lemma_singletons_upto(n: nat, k: int)
    requires
        0 <= k <= n,
    ensures
        classes_upto(singletons(n), k) == k,
    decreases k,
{
    if k > 0 {
        lemma_singletons_upto(n, k - 1);
        let s = singletons(n);
        assert(first_of_class(s, k - 1));
    }
}

/// The joined classes of any edge list form a partition of the nodes.
pub proof fn lemma_joined_partition(n: nat, edges: Seq<(Option<usize>, Option<usize>)>)
    ensures
        is_partition(joined(n, edges)),
        joined(n, edges).len() == n,
    decreases edges.len(),
{
    if edges.len() == 0 {
        lemma_singletons(n);
    } else {
        lemma_joined_partition(n, edges.drop_last());
        let s = joined(n, edges.drop_last());
        let e = edges.last();
        if e.0 is Some && e.1 is Some && e.0->0 < n && e.1->0 < n {
            lemma_merged(s, e.0->0 as int, e.1->0 as int);
        }
    }
}

/// The forest `p` is consistent with the classes `r` under ranks `k`: parents stay inside
/// the set, every parent edge keeps the class and climbs in rank, and exactly the roots
/// represent their class.
pub open spec fn forest_ok(p: Seq<usize>, r: Seq<int>, k: Seq<nat>) -> bool {
    &&& p.len() == r.len()
    &&& k.len() == r.len()
    &&& is_partition(r)
    &&& forall|i: int| #![trigger p[i]] 0 <= i < p.len() ==> (p[i] as int) < p.len()
    &&& forall|i: int| #![trigger p[i]] 0 <= i < p.len() ==> r[p[i] as int] == r[i]
    &&& forall|i: int| #![trigger p[i]] 0 <= i < p.len() && p[i] != i ==> k[p[i] as int] > k[i]
    &&& forall|i: int| #![trigger p[i]] 0 <= i < p.len() && p[i] == i ==> r[i] == i
    &&& forall|i: int| #![trigger r[i]] 0 <= i < p.len() ==> p[r[i]] == r[i]
    &&& forall|i: int| #![trigger r[i]] 0 <= i < p.len() ==> k[i] <= k[r[i]]
}

/// Pointing `x` at its grandparent keeps the forest consistent and climbs in rank.
proof fn lemma_halve(p: Seq<usize>, r: Seq<int>, k: Seq<nat>, x: int)
    requires
        forest_ok(p, r, k),
        0 <= x < p.len(),
        p[x] != x,
    ensures
        forest_ok(p.update(x, p[p[x] as int]), r, k),
        k[p[p[x] as int] as int] > k[x],
        r[p[p[x] as int] as int] == r[x],
        k[x] <= k[r[x]],
{
    let pp = p[x] as int;
    let g = p[pp] as int;
    assert(k[pp] > k[x]);
    if g != pp {
        assert(k[g] > k[pp]);
    }
    assert(r[pp] == r[x]);
    assert(r[g] == r[pp]);
    let q = p.update(x, p[pp]);
    assert forall|i: int| #![trigger q[i]] 0 <= i < q.len() && q[i] == i implies r[i] == i by {
        if i == x {
            assert(false);
        } else {
            assert(q[i] == p[i]);
        }
    }
    assert forall|i: int| #![trigger r[i]] 0 <= i < q.len() implies q[r[i]] == r[i] by {
        assert(p[r[i]] == r[i]);
        if r[i] == x {
            assert(r[x] == x);
        }
    }
    assert forall|i: int| #![trigger q[i]] 0 <= i < q.len() implies r[q[i] as int] == r[i] by {
        if i != x {
            assert(q[i] == p[i]);
        }
    }
    assert forall|i: int| #![trigger q[i]] 0 <= i < q.len() && q[i] != i implies k[q[i] as int] > k[i] by {
        if i != x {
            assert(q[i] == p[i]);
        }
    }
    assert forall|i: int| #![trigger q[i]] 0 <= i < q.len() implies (q[i] as int) < q.len() by {
        if i != x {
            assert(q[i] == p[i]);
        }
    }
}

/// Hanging root `a` under root `b` (distinct) merges their classes; raising `b`'s rank
/// above `a`'s keeps every parent edge climbing.
proof fn lemma_link(p: Seq<usize>, r: Seq<int>, k: Seq<nat>, a: int, b: int)
    requires
        forest_ok(p, r, k),
        0 <= a < p.len(),
        0 <= b < p.len(),
        r[a] == a,
        r[b] == b,
        a != b,
    ensures
        forest_ok(
            p.update(a, b as usize),
            merged(r, a, b),
            k.update(b, if k[b] > k[a] { k[b] } else { k[a] + 1 }),
        ),
{
    let q = p.update(a, b as usize);
    let t = merged(r, a, b);
    let nk = k.update(b, if k[b] > k[a] { k[b] } else { k[a] + 1 });
    lemma_merged(r, a, b);
    assert(p[a] == a);
    assert(p[b] == b);
    assert forall|i: int| #![trigger q[i]] 0 <= i < q.len() implies (q[i] as int) < q.len() by {
        if i != a {
            assert(q[i] == p[i]);
        }
    }
    assert forall|i: int| #![trigger q[i]] 0 <= i < q.len() implies t[q[i] as int] == t[i] by {
        if i != a {
            assert(q[i] == p[i]);
            assert(r[p[i] as int] == r[i]);
        }
    }
    assert forall|i: int| #![trigger q[i]] 0 <= i < q.len() && q[i] != i implies nk[q[i] as int] > nk[i] by {
        if i != a {
            assert(q[i] == p[i]);
            assert(p[i] != i);
            assert(k[p[i] as int] > k[i]);
            if i == b {
                assert(p[b] == b);
            }
        }
    }
    assert forall|i: int| #![trigger q[i]] 0 <= i < q.len() && q[i] == i implies t[i] == i by {
        if i != a {
            assert(q[i] == p[i]);
            assert(r[i] == i);
        }
    }
    assert forall|i: int| #![trigger t[i]] 0 <= i < q.len() implies q[t[i]] == t[i] by {
        assert(0 <= r[i] < r.len());
        assert(p[r[i]] == r[i]);
    }
    assert forall|i: int| #![trigger t[i]] 0 <= i < q.len() implies nk[i] <= nk[t[i]] by {
        assert(k[i] <= k[r[i]]);
        if r[i] == a {
            assert(k[i] <= k[a]);
        }
    }
}

/// A union-find forest with path halving.
pub struct DisjointSet {
    parent: Vec<usize>,
    rep: Ghost<Seq<int>>,
    rank: Ghost<Seq<nat>>,
}

impl View for DisjointSet {
    type V = Seq<int>;

    closed spec fn view(&self) -> Seq<int> {
        self.rep@
    }
}

impl DisjointSet {
    pub closed spec fn wf(&self) -> bool {
        forest_ok(self.parent@, self.rep@, self.rank@)
    }

    /// The view of a well-formed set is a partition.
    pub proof fn lemma_wf_partition(&self)
        requires
            self.wf(),
        ensures
            is_partition(self@),
    {
    }

    /// `n` nodes, each in a class of its own.
    pub fn new(n: usize) -> (d: Self)
        ensures
            d.wf(),
            d@ == singletons(n as nat),
    {
        let mut parent: Vec<usize> = Vec::new();
        let mut i: usize = 0;
        while i < n
            invariant
                i <= n,
                parent@.len() == i,
                forall|j: int| 0 <= j < i ==> parent@[j] == j,
            decreases n - i,
        {
            parent.push(i);
            i = i + 1;
        }
        let ghost r = singletons(n as nat);
        let ghost k = Seq::new(n as nat, |j: int| 0nat);
        assert(is_partition(r));
        assert(forest_ok(parent@, r, k));
        DisjointSet { parent, rep: Ghost(r), rank: Ghost(k) }
    }

    /// The number of nodes.
    pub fn len(&self) -> (n: usize)
        requires
            self.wf(),
        ensures
            n == self@.len(),
    {
        self.parent.len()
    }

    /// The representative of `x`'s class; shortens paths without changing any class.
    pub fn find(&mut self, x: usize) -> (r: usize)
        requires
            old(self).wf(),
            x < old(self)@.len(),
        ensures
            final(self).wf(),
            final(self)@ == old(self)@,
            r == old(self)@[x as int],
    {
        let ghost r0 = self.rep@;
        let ghost k0 = self.rank@;
        let ghost x0 = x as int;
        let mut x = x;
        while self.parent[x] != x
            invariant
                forest_ok(self.parent@, self.rep@, self.rank@),
                self.rep@ == r0,
                self.rank@ == k0,
                x < self.parent@.len(),
                0 <= x0 < r0.len(),
                r0[x as int] == r0[x0],
            decreases k0[r0[x as int]] - k0[x as int],
        {
            let p = self.parent[x];
            let gp = self.parent[p];
            proof {
                lemma_halve(self.parent@, r0, k0, x as int);
            }
            self.parent.set(x, gp);
            x = gp;
        }
        proof {
            assert(self.parent@[x as int] == x);
        }
        x
    }

    /// Merges the class of `a` into the class of `b`.
    pub fn union(&mut self, a: usize, b: usize)
        requires
            old(self).wf(),
            a < old(self)@.len(),
            b < old(self)@.len(),
        ensures
            final(self).wf(),
            final(self)@ == merged(old(self)@, a as int, b as int),
    {
        let ra = self.find(a);
        let rb = self.find(b);
        if ra != rb {
            proof {
                let r = self.rep@;
                assert(r[ra as int] == ra);
                assert(r[rb as int] == rb);
                lemma_link(self.parent@, self.rep@, self.rank@, ra as int, rb as int);
                assert(merged(r, ra as int, rb as int) =~= merged(r, a as int, b as int));
            }
            let ghost k = self.rank@;
            let ghost nr = merged(self.rep@, ra as int, rb as int);
            let ghost nk = k.update(rb as int, if k[rb as int] > k[ra as int] { k[rb as int] } else { k[ra as int] + 1 });
            self.parent.set(ra, rb);
            self.rep = Ghost(nr);
            self.rank = Ghost(nk);
        } else {
            proof {
                let r = self.rep@;
                assert(merged(r, a as int, b as int) =~= r);
            }
        }
    }

    /// The number of classes.
    pub fn component_count(&mut self) -> (c: usize)
        requires
            old(self).wf(),
        ensures
            final(self).wf(),
            final(self)@ == old(self)@,
            c == class_count(old(self)@),
    {
        let n = self.parent.len();
        let ghost s = self.rep@;
        let mut seen: Vec<bool> = Vec::new();
        let mut j: usize = 0;
        while j < n
            invariant
                j <= n,
                seen@.len() == j,
                forall|t: int| 0 <= t < j ==> !seen@[t],
            decreases n - j,
        {
            seen.push(false);
            j = j + 1;
        }
        let mut count: usize = 0;
        let mut i: usize = 0;
        while i < n
            invariant
                self.wf(),
                self.rep@ == s,
                n == s.len(),
                i <= n,
                seen@.len() == n,
                count <= i,
                count == classes_upto(s, i as int),
                forall|t: int| 0 <= t < n ==> (seen@[t] <==> exists|j: int| 0 <= j < i && s[j] == t),
            decreases n - i,
        {
            let r = self.find(i);
            proof {
                assert(is_partition(s));
                assert(0 <= s[i as int] < n);
            }
            if !seen[r] {
                proof {
                    assert forall|j: int| 0 <= j < i implies s[j] != s[i as int] by {
                        if s[j] == s[i as int] {
                            assert(seen@[r as int]);
                        }
                    }
                    assert(first_of_class(s, i as int));
                }
                seen.set(r, true);
                count = count + 1;
                proof {
                    assert forall|t: int| 0 <= t < n implies (seen@[t] <==> exists|j: int| 0 <= j < i + 1 && s[j] == t) by {
                        if t == r {
                            assert(s[i as int] == t);
                        } else {
                            if exists|j: int| 0 <= j < i + 1 && s[j] == t {
                                let j = choose|j: int| 0 <= j < i + 1 && s[j] == t;
                                assert(j < i);
                            }
                        }
                    }
                }
            } else {
                proof {
                    let w = choose|j: int| 0 <= j < i && s[j] == r;
                    assert(!first_of_class(s, i as int)) by {
                        assert(s[w] == s[i as int]);
                    }
                    assert forall|t: int| 0 <= t < n implies (seen@[t] <==> exists|j: int| 0 <= j < i + 1 && s[j] == t) by {
                        if exists|j: int| 0 <= j < i + 1 && s[j] == t {
                            let j = choose|j: int| 0 <= j < i + 1 && s[j] == t;
                            if j == i {
                                assert(s[w] == t);
                            }
                        }
                    }
                }
            }
            i = i + 1;
        }
        count
    }
}

/// Joins `n` nodes along the given edges and counts the classes that remain.
pub fn count_components(n: usize, edges: &Vec<(Option<usize>, Option<usize>)>) -> (c: usize)
    ensures
        c == class_count(joined(n as nat, edges@)),
{
    let mut d = DisjointSet::new(n);
    let mut i: usize = 0;
    while i < edges.len()
        invariant
            d.wf(),
            d@ == joined(n as nat, edges@.take(i as int)),
            d@.len() == n,
            i <= edges@.len(),
        decreases edges@.len() - i,
    {
        proof {
            assert(edges@.take(i + 1).drop_last() =~= edges@.take(i as int));
        }
        let e = edges[i];
        match e {
            (Some(a), Some(b)) => {
                if a < n && b < n {
                    d.union(a, b);
                }
            },
            _ => {},
        }
        i = i + 1;
    }
    assert(edges@.take(edges@.len() as int) =~= edges@);
    d.component_count()
}

} // verus!
