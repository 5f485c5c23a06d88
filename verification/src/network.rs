//! The ring topology a node keeps: the live node ids in cyclic send order.
//! Each node writes to its successor and reads from its predecessor; when a
//! node dies it is spliced out, so the ring stays a single simple cycle.
use vstd::prelude::*;

use vstd::arithmetic::div_mod::{
    lemma_add_mod_noop, lemma_fundamental_div_mod_converse, lemma_mod_multiples_vanish,
    lemma_small_mod,
};

verus! {

/// Whether a sequence of node ids has no repeats.
pub open spec fn seq_distinct(s: Seq<usize>) -> bool {
    forall|i: int, j: int| 0 <= i < j < s.len() ==> s[i] != s[j]
}

/// Whether the ring holds this node.
pub open spec fn seq_contains_node(s: Seq<usize>, id: usize) -> bool {
    exists|i: int| 0 <= i < s.len() && s[i] == id
}

/// The position of a node in the ring.
pub open spec fn seq_node_index(s: Seq<usize>, id: usize) -> int {
    choose|i: int| 0 <= i < s.len() && s[i] == id
}

/// The node the given node sends to: the next one in cyclic order.
pub open spec fn seq_successor(s: Seq<usize>, id: usize) -> usize {
    s[(seq_node_index(s, id) + 1) % (s.len() as int)]
}

/// The node the given node reads from: the previous one in cyclic order.
pub open spec fn seq_predecessor(s: Seq<usize>, id: usize) -> usize {
    s[(seq_node_index(s, id) - 1 + s.len() as int) % (s.len() as int)]
}

/// The node the given one reaches after following `k` successor links.
pub open spec fn iterate_successor(s: Seq<usize>, id: usize, k: nat) -> usize
    decreases k,
{
    if k == 0 {
        id
    } else {
        seq_successor(s, iterate_successor(s, id, (k - 1) as nat))
    }
}

/// The live nodes of one ring, in cyclic send order: each node's successor is
/// the next element, and the last node's successor is the first.
#[derive(Clone, Debug)]
pub struct Ring {
    pub nodes: Vec<usize>,
}

impl Ring {
    /// No node appears twice.
    pub open spec fn wf(self) -> bool {
        seq_distinct(self.nodes@)
    }

    /// Whether the ring holds this node.
    pub open spec fn spec_contains(self, id: usize) -> bool {
        seq_contains_node(self.nodes@, id)
    }

    /// The successor of a node in this ring.
    pub open spec fn spec_successor(self, id: usize) -> usize {
        seq_successor(self.nodes@, id)
    }

    /// The predecessor of a node in this ring.
    pub open spec fn spec_predecessor(self, id: usize) -> usize {
        seq_predecessor(self.nodes@, id)
    }

    /// The initial ring over ids `0 .. n`: node 0 sends to `n - 1`, and every
    /// other node `i` sends to `i - 1`.
    pub fn initialize(n: usize) -> (r: Ring)
        requires
            n >= 1,
        ensures
            r.wf(),
            r.nodes@.len() == n,
            r.nodes@[0] == 0,
            forall|k: int| 1 <= k < n ==> r.nodes@[k] == n - k,
            forall|id: usize| r.spec_contains(id) <==> id < n,
    {
        let mut nodes: Vec<usize> = Vec::new();
        nodes.push(0);
        let mut next: usize = n - 1;
        while next >= 1
            invariant
                next <= n - 1,
                nodes@.len() == n - next,
                nodes@[0] == 0,
                forall|k: int| 1 <= k < nodes@.len() ==> nodes@[k] == n - k,
            decreases next,
        {
            nodes.push(next);
            next -= 1;
        }
        let r = Ring { nodes };
        proof {
            assert forall|i: int, j: int| 0 <= i < j < r.nodes@.len() implies r.nodes@[i]
                != r.nodes@[j] by {}
            assert forall|id: usize| r.spec_contains(id) <==> id < n by {
                if id < n {
                    if id == 0 {
                        assert(r.nodes@[0] == id);
                    } else {
                        assert(r.nodes@[n - id] == id);
                    }
                }
                if r.spec_contains(id) {
                    let i = seq_node_index(r.nodes@, id);
                    assert(r.nodes@[i] == id);
                }
            }
        }
        r
    }

    /// How many nodes are live.
    pub fn len(&self) -> (r: usize)
        ensures
            r == self.nodes@.len(),
    {
        self.nodes.len()
    }

    /// Finds a node's position.
    fn find_index(&self, id: usize) -> (r: Option<usize>)
        ensures
            match r {
                Some(i) => i < self.nodes@.len() && self.nodes@[i as int] == id,
                None => !self.spec_contains(id),
            },
    {
        let mut i: usize = 0;
        while i < self.nodes.len()
            invariant
                i <= self.nodes@.len(),
                forall|j: int| 0 <= j < i ==> self.nodes@[j] != id,
            decreases self.nodes@.len() - i,
        {
            if self.nodes[i] == id {
                return Some(i);
            }
            i += 1;
        }
        None
    }

    /// Whether the ring holds this node.
    pub fn contains(&self, id: usize) -> (r: bool)
        ensures
            r == self.spec_contains(id),
    {
        self.find_index(id).is_some()
    }

    /// The node this one sends to, or `None` when the node is not live.
    pub fn successor_of(&self, id: usize) -> (r: Option<usize>)
        requires
            self.wf(),
        ensures
            match r {
                Some(succ) => self.spec_contains(id) && succ == self.spec_successor(id),
                None => !self.spec_contains(id),
            },
    {
        match self.find_index(id) {
            Some(i) => {
                proof {
                    lemma_node_unique_index(self.nodes@, id, i as int);
                }
                let n = self.nodes.len();
                let next_index = if i + 1 == n {
                    0
                } else {
                    i + 1
                };
                proof {
                    if i + 1 == n {
                        lemma_mod_multiples_vanish(1, 0, n as int);
                    } else {
                        lemma_small_mod((i + 1) as nat, n as nat);
                    }
                }
                Some(self.nodes[next_index])
            },
            None => None,
        }
    }

    /// The node this one reads from, or `None` when the node is not live.
    pub fn predecessor_of(&self, id: usize) -> (r: Option<usize>)
        requires
            self.wf(),
        ensures
            match r {
                Some(prev) => self.spec_contains(id) && self.spec_contains(prev) && id
                    == self.spec_successor(prev) && prev == self.spec_predecessor(id),
                None => !self.spec_contains(id),
            },
    {
        match self.find_index(id) {
            Some(i) => {
                proof {
                    lemma_node_unique_index(self.nodes@, id, i as int);
                }
                let n = self.nodes.len();
                let prev_index = if i == 0 {
                    n - 1
                } else {
                    i - 1
                };
                let prev = self.nodes[prev_index];
                proof {
                    lemma_node_unique_index(self.nodes@, prev, prev_index as int);
                    if i == 0 {
                        lemma_mod_multiples_vanish(1, 0, n as int);
                        lemma_small_mod((n - 1) as nat, n as nat);
                    } else {
                        lemma_small_mod(i as nat, n as nat);
                        vstd::arithmetic::div_mod::lemma_mod_add_multiples_vanish(
                            i - 1,
                            n as int,
                        );
                        lemma_small_mod((i - 1) as nat, n as nat);
                        assert((i - 1 + n) % (n as int) == (n as int + (i - 1)) % (n as int));
                    }
                }
                Some(prev)
            },
            None => None,
        }
    }

    /// Splices a dead node out of the ring: its predecessor now sends to its
    /// successor. A node that is not live leaves the ring unchanged.
    pub fn remove(&mut self, id: usize)
        requires
            old(self).wf(),
        ensures
            final(self).wf(),
            !final(self).spec_contains(id),
            old(self).spec_contains(id) ==> final(self).nodes@ == old(self).nodes@.remove(
                seq_node_index(old(self).nodes@, id),
            ),
            !old(self).spec_contains(id) ==> final(self).nodes@ == old(self).nodes@,
            forall|other: usize| other != id ==> (#[trigger] final(self).spec_contains(other)
                <==> old(self).spec_contains(other)),
    {
        match self.find_index(id) {
            Some(i) => {
                proof {
                    lemma_node_unique_index(self.nodes@, id, i as int);
                }
                self.nodes.remove(i);
                proof {
                    let a = old(self).nodes@;
                    let b = self.nodes@;
                    let n = a.len() as int;
                    assert(forall|j: int| 0 <= j < i ==> b[j] == a[j]);
                    assert(forall|j: int| i <= j < n - 1 ==> b[j] == a[j + 1]);
                    assert forall|p: int, q: int| 0 <= p < q < b.len() implies b[p] != b[q] by {
                        let pa = if p < i as int {
                            p
                        } else {
                            p + 1
                        };
                        let qa = if q < i as int {
                            q
                        } else {
                            q + 1
                        };
                        assert(b[p] == a[pa]);
                        assert(b[q] == a[qa]);
                    }
                    assert(!self.spec_contains(id)) by {
                        if self.spec_contains(id) {
                            let j = seq_node_index(b, id);
                            let ja = if j < i as int {
                                j
                            } else {
                                j + 1
                            };
                            assert(a[ja] == id);
                        }
                    }
                    assert forall|other: usize| other != id implies (
                    #[trigger] self.spec_contains(other) <==> old(self).spec_contains(other)) by {
                        if old(self).spec_contains(other) {
                            let j = seq_node_index(a, other);
                            assert(j != i);
                            let jb = if j < i as int {
                                j
                            } else {
                                j - 1
                            };
                            assert(b[jb] == other);
                        }
                        if self.spec_contains(other) {
                            let j = seq_node_index(b, other);
                            let ja = if j < i as int {
                                j
                            } else {
                                j + 1
                            };
                            assert(a[ja] == other);
                        }
                    }
                }
            },
            None => {},
        }
    }
}

/// In a ring without repeats, a node's position is unique.
pub proof fn lemma_node_unique_index(s: Seq<usize>, id: usize, i: int)
    requires
        seq_distinct(s),
        0 <= i < s.len(),
        s[i] == id,
    ensures
        seq_contains_node(s, id),
        seq_node_index(s, id) == i,
{
    let j = seq_node_index(s, id);
    assert(0 <= j < s.len() && s[j] == id);
}

/// Following `k` successor links from the node at position `i` lands on the
/// node at position `(i + k) mod n`.
proof fn lemma_iterate_lands(s: Seq<usize>, i: int, k: nat)
    requires
        seq_distinct(s),
        s.len() >= 1,
        0 <= i < s.len(),
    ensures
        iterate_successor(s, s[i], k) == s[(i + k) % (s.len() as int)],
    decreases k,
{
    let n = s.len() as int;
    if k == 0 {
        lemma_small_mod(i as nat, n as nat);
    } else {
        lemma_iterate_lands(s, i, (k - 1) as nat);
        let m = (i + k - 1) % n;
        assert(0 <= m < n) by {
            vstd::arithmetic::div_mod::lemma_mod_bound(i + k - 1, n);
        }
        lemma_node_unique_index(s, s[m], m);
        assert(iterate_successor(s, s[i], k) == s[(m + 1) % n]);
        assert((m + 1) % n == (i + k) % n) by {
            if n == 1 {
                lemma_fundamental_div_mod_converse(m + 1, 1, m + 1, 0);
                lemma_fundamental_div_mod_converse(i + k, 1, i + k, 0);
            } else {
                lemma_add_mod_noop(i + k - 1, 1, n);
                lemma_small_mod(1nat, n as nat);
            }
        }
    }
}

/// The successor of a live node is live: the ring is closed under
/// following send links.
pub proof fn lemma_ring_successor_closed(r: Ring, x: usize)
    requires
        r.wf(),
        r.nodes@.len() >= 1,
        r.spec_contains(x),
    ensures
        r.spec_contains(r.spec_successor(x)),
{
    let s = r.nodes@;
    let n = s.len() as int;
    let i = seq_node_index(s, x);
    assert(0 <= (i + 1) % n < n) by {
        vstd::arithmetic::div_mod::lemma_mod_bound(i + 1, n);
    }
    assert(s[(i + 1) % n] == r.spec_successor(x));
}

/// Two distinct live nodes send to distinct nodes: every live node appears at
/// most once as a successor.
pub proof fn lemma_ring_successor_injective(r: Ring, x: usize, y: usize)
    requires
        r.wf(),
        r.nodes@.len() >= 1,
        r.spec_contains(x),
        r.spec_contains(y),
        x != y,
    ensures
        r.spec_successor(x) != r.spec_successor(y),
{
    let s = r.nodes@;
    let i = seq_node_index(s, x);
    let j = seq_node_index(s, y);
    assert(s[i] == x && s[j] == y);
    lemma_successor_index_distinct(s, i, j);
}

/// Following successor links from any live node visits every live node within
/// one lap: the ring is a single simple cycle, not several disjoint ones.
pub proof fn lemma_ring_reaches_all(r: Ring, x: usize, y: usize) -> (k: nat)
    requires
        r.wf(),
        r.nodes@.len() >= 1,
        r.spec_contains(x),
        r.spec_contains(y),
    ensures
        k < r.nodes@.len(),
        iterate_successor(r.nodes@, x, k) == y,
{
    let s = r.nodes@;
    let n = s.len() as int;
    let i = seq_node_index(s, x);
    let j = seq_node_index(s, y);
    assert(s[i] == x && s[j] == y);
    let k = if j >= i {
        (j - i) as nat
    } else {
        (j + n - i) as nat
    };
    lemma_iterate_lands(s, i, k);
    assert((i + k) % n == j) by {
        if j >= i {
            lemma_small_mod(j as nat, n as nat);
        } else {
            lemma_mod_multiples_vanish(1, j, n);
            lemma_small_mod(j as nat, n as nat);
        }
    }
    k
}

/// Distinct positions have distinct cyclic successors.
proof fn lemma_successor_index_distinct(s: Seq<usize>, i: int, j: int)
    requires
        seq_distinct(s),
        0 <= i < s.len(),
        0 <= j < s.len(),
        i != j,
    ensures
        s[(i + 1) % (s.len() as int)] != s[(j + 1) % (s.len() as int)],
{
    let n = s.len() as int;
    let si = (i + 1) % n;
    let sj = (j + 1) % n;
    assert(0 <= si < n && 0 <= sj < n) by {
        vstd::arithmetic::div_mod::lemma_mod_bound(i + 1, n);
        vstd::arithmetic::div_mod::lemma_mod_bound(j + 1, n);
    }
    assert(si != sj) by {
        if i + 1 < n {
            lemma_small_mod((i + 1) as nat, n as nat);
        } else {
            lemma_fundamental_div_mod_converse(i + 1, n, 1, 0);
        }
        if j + 1 < n {
            lemma_small_mod((j + 1) as nat, n as nat);
        } else {
            lemma_fundamental_div_mod_converse(j + 1, n, 1, 0);
        }
    }
}


} // verus!
