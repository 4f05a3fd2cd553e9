//! Gossip broadcast engine: rumor-mongering dissemination of integer values.
//!
//! The engine keeps the knowledge set (every value this node believes is
//! part of the global broadcast set), the set of rumor identifiers already
//! processed (to suppress re-flooding), and the current neighbor list.
//! Reliability comes solely from flooding redundancy: a rumor with a fresh
//! identifier is recorded and re-forwarded to every neighbor, a rumor with
//! a seen identifier changes nothing and is not forwarded again.

use vstd::prelude::*;

verus! {

/// A topology mapping with keys and neighbor lists abstracted to views.
pub open spec fn topo_view(t: Seq<(String, Vec<String>)>) -> Seq<(Seq<char>, Seq<Seq<char>>)> {
    t.map(|i: int, e: (String, Vec<String>)| (e.0@, e.1.deep_view()))
}

/// The neighbor list a topology mapping assigns to `k`: the first entry
/// keyed by `k`, if any.
pub open spec fn topo_lookup(t: Seq<(Seq<char>, Seq<Seq<char>>)>, k: Seq<char>) -> Option<
    Seq<Seq<char>>,
>
    decreases t.len(),
{
    if t.len() == 0 {
        None
    } else if t[0].0 == k {
        Some(t[0].1)
    } else {
        topo_lookup(t.drop_first(), k)
    }
}

/// The neighbor list after a topology payload keyed for `k` is applied to a
/// node whose list is `n`: the topology's entry replaces `n` wholesale; a
/// mapping without an entry for `k` leaves `n` as it was (and is an error).
pub open spec fn neighbors_after(
    n: Seq<Seq<char>>,
    t: Seq<(Seq<char>, Seq<Seq<char>>)>,
    k: Seq<char>,
) -> Seq<Seq<char>> {
    match topo_lookup(t, k) {
        Some(l) => l,
        None => n,
    }
}

/// Applying the same topology mapping twice leaves the same neighbor list
/// as applying it once, whatever list the node started from.
pub proof fn lemma_topology_idempotent(
    n: Seq<Seq<char>>,
    t: Seq<(Seq<char>, Seq<Seq<char>>)>,
    k: Seq<char>,
)
    ensures
        neighbors_after(neighbors_after(n, t, k), t, k) == neighbors_after(n, t, k),
{
}

/// Pushing an element onto a sequence inserts it into the denoted set.
pub proof fn lemma_to_set_push<A>(s: Seq<A>, a: A)
    ensures
        s.push(a).to_set() == s.to_set().insert(a),
{
    assert(s.push(a).to_set() =~= s.to_set().insert(a)) by {
        assert forall|x: A| s.push(a).to_set().contains(x) implies s.to_set().insert(a).contains(
            x,
        ) by {
            let i = choose|i: int| 0 <= i < s.push(a).len() && s.push(a)[i] == x;
            if i < s.len() {
                assert(s[i] == x);
            }
        }
        assert forall|x: A| s.to_set().insert(a).contains(x) implies s.push(a).to_set().contains(
            x,
        ) by {
            if x == a {
                assert(s.push(a)[s.len() as int] == x);
            } else {
                let i = choose|i: int| 0 <= i < s.len() && s[i] == x;
                assert(s.push(a)[i] == x);
            }
        }
    }
}

/// State of the gossip broadcast engine.
pub struct Gossip {
    /// Knowledge set: values believed to be part of the global set.
    pub values: Vec<u64>,
    /// Identifiers of rumors already processed.
    pub seen: Vec<u128>,
    /// Current neighbor node ids, replaced wholesale by a topology payload.
    pub neighbors: Vec<String>,
}

impl Gossip {
    /// The knowledge set.
    pub open spec fn value_set(self) -> Set<u64> {
        self.values@.to_set()
    }

    /// The set of rumor identifiers already processed.
    pub open spec fn seen_set(self) -> Set<u128> {
        self.seen@.to_set()
    }

    /// The neighbor list, abstracted to character sequences.
    pub open spec fn neighbor_ids(self) -> Seq<Seq<char>> {
        self.neighbors.deep_view()
    }

    /// Neither the knowledge list nor the seen list repeats an element.
    pub open spec fn wf(self) -> bool {
        self.values@.no_duplicates() && self.seen@.no_duplicates()
    }

    /// An engine that knows nothing and has no neighbors.
    pub fn new() -> (g: Gossip)
        ensures
            g.value_set() == Set::<u64>::empty(),
            g.seen_set() == Set::<u128>::empty(),
            g.neighbor_ids() == Seq::<Seq<char>>::empty(),
            g.wf(),
    {
        let g = Gossip { values: Vec::new(), seen: Vec::new(), neighbors: Vec::new() };
        proof {
            assert(g.value_set() =~= Set::<u64>::empty());
            assert(g.seen_set() =~= Set::<u128>::empty());
            assert(g.neighbor_ids() =~= Seq::<Seq<char>>::empty());
        }
        g
    }

    /// Whether `value` is already in the knowledge set.
    fn knows_value(&self, value: u64) -> (b: bool)
        ensures
            b == self.value_set().contains(value),
    {
        let n = self.values.len();
        let mut i: usize = 0;
        while i < n
            invariant
                0 <= i <= n,
                n == self.values@.len(),
                forall|j: int| 0 <= j < i ==> self.values@[j] != value,
            decreases n - i,
        {
            if self.values[i] == value {
                return true;
            }
            i += 1;
        }
        false
    }

    /// Whether the rumor identifier has been processed before.
    fn has_seen(&self, rumor_id: u128) -> (b: bool)
        ensures
            b == self.seen_set().contains(rumor_id),
    {
        let n = self.seen.len();
        let mut i: usize = 0;
        while i < n
            invariant
                0 <= i <= n,
                n == self.seen@.len(),
                forall|j: int| 0 <= j < i ==> self.seen@[j] != rumor_id,
            decreases n - i,
        {
            if self.seen[i] == rumor_id {
                return true;
            }
            i += 1;
        }
        false
    }

    /// Adds `value` to the knowledge set; duplicates collapse.
    fn learn(&mut self, value: u64)
        requires
            old(self).wf(),
        ensures
            final(self).wf(),
            final(self).value_set() == old(self).value_set().insert(value),
            final(self).seen == old(self).seen,
            final(self).neighbors == old(self).neighbors,
    {
        if !self.knows_value(value) {
            proof {
                lemma_to_set_push(self.values@, value);
            }
            self.values.push(value);
        } else {
            proof {
                assert(old(self).value_set().insert(value) =~= old(self).value_set());
            }
        }
    }

    /// Records a rumor identifier as processed; duplicates collapse.
    fn record(&mut self, rumor_id: u128)
        requires
            old(self).wf(),
        ensures
            final(self).wf(),
            final(self).seen_set() == old(self).seen_set().insert(rumor_id),
            final(self).values == old(self).values,
            final(self).neighbors == old(self).neighbors,
    {
        if !self.has_seen(rumor_id) {
            proof {
                lemma_to_set_push(self.seen@, rumor_id);
            }
            self.seen.push(rumor_id);
        } else {
            proof {
                assert(old(self).seen_set().insert(rumor_id) =~= old(self).seen_set());
            }
        }
    }

    /// A broadcast from the harness: the value joins the knowledge set and
    /// is paired with the freshly minted rumor identifier, which is recorded
    /// so the node's own flood does not re-enter.  The caller forwards the
    /// rumor to every current neighbor.
    pub fn on_broadcast(&mut self, value: u64, rumor_id: u128)
        requires
            old(self).wf(),
        ensures
            final(self).wf(),
            final(self).value_set() == old(self).value_set().insert(value),
            final(self).seen_set() == old(self).seen_set().insert(rumor_id),
            final(self).neighbors == old(self).neighbors,
    {
        self.learn(value);
        self.record(rumor_id);
    }

    /// A rumor relayed by a peer.  A fresh identifier adds the value to the
    /// knowledge set and is recorded, and the caller re-forwards the rumor;
    /// a previously seen identifier changes nothing and must not be
    /// forwarded again.
    pub fn on_rumor(&mut self, rumor_id: u128, value: u64) -> (fresh: bool)
        requires
            old(self).wf(),
        ensures
            final(self).wf(),
            fresh == !old(self).seen_set().contains(rumor_id),
            fresh ==> final(self).value_set() == old(self).value_set().insert(value)
                && final(self).seen_set() == old(self).seen_set().insert(rumor_id),
            !fresh ==> *final(self) == *old(self),
            final(self).neighbors == old(self).neighbors,
    {
        if self.has_seen(rumor_id) {
            return false;
        }
        self.learn(value);
        self.record(rumor_id);
        true
    }

    /// The knowledge set as a list, in the order the values were learned.
    pub fn values_list(&self) -> (r: Vec<u64>)
        ensures
            r@ == self.values@,
            r@.to_set() == self.value_set(),
    {
        let n = self.values.len();
        let mut r: Vec<u64> = Vec::new();
        let mut i: usize = 0;
        while i < n
            invariant
                0 <= i <= n,
                n == self.values@.len(),
                r@ == self.values@.take(i as int),
            decreases n - i,
        {
            r.push(self.values[i]);
            proof {
                assert(r@ =~= self.values@.take(i as int + 1));
            }
            i += 1;
        }
        proof {
            assert(r@ =~= self.values@);
        }
        r
    }

    /// Replaces the neighbor list with the entry for `self_id` in the
    /// supplied mapping; a mapping with no entry for `self_id` is malformed
    /// and changes nothing.
    pub fn apply_topology(&mut self, topology: &Vec<(String, Vec<String>)>, self_id: &String) -> (ok:
        bool)
        requires
            old(self).wf(),
        ensures
            final(self).wf(),
            ok == (topo_lookup(topo_view(topology@), self_id@) is Some),
            final(self).neighbor_ids() == neighbors_after(
                old(self).neighbor_ids(),
                topo_view(topology@),
                self_id@,
            ),
            final(self).values == old(self).values,
            final(self).seen == old(self).seen,
            !ok ==> *final(self) == *old(self),
    {
        let n = topology.len();
        let mut i: usize = 0;
        proof {
            assert(topo_view(topology@).skip(0) =~= topo_view(topology@));
        }
        while i < n
            invariant
                0 <= i <= n,
                n == topology@.len(),
                *self == *old(self),
                old(self).wf(),
                forall|j: int| 0 <= j < i ==> topology@[j].0@ != self_id@,
                topo_lookup(topo_view(topology@), self_id@) == topo_lookup(
                    topo_view(topology@).skip(i as int),
                    self_id@,
                ),
            decreases n - i,
        {
            if topology[i].0 == *self_id {
                proof {
                    let tv = topo_view(topology@);
                    assert(tv.skip(i as int)[0] == tv[i as int]);
                }
                self.neighbors = clone_string_vec(&topology[i].1);
                return true;
            }
            proof {
                assert(topo_view(topology@).skip(i as int).drop_first() =~= topo_view(
                    topology@,
                ).skip(i as int + 1));
                assert(topo_view(topology@).skip(i as int)[0] == topo_view(topology@)[i as int]);
            }
            i += 1;
        }
        proof {
            assert(topo_view(topology@).skip(n as int) =~= Seq::<
                (Seq<char>, Seq<Seq<char>>),
            >::empty());
        }
        false
    }
}

/// An element-for-element copy of a list of node ids.
fn clone_string_vec(v: &Vec<String>) -> (r: Vec<String>)
    ensures
        r.deep_view() == v.deep_view(),
{
    let n = v.len();
    let mut r: Vec<String> = Vec::new();
    let mut i: usize = 0;
    while i < n
        invariant
            0 <= i <= n,
            n == v@.len(),
            r@.len() == i,
            forall|k: int| 0 <= k < i ==> #[trigger] r@[k]@ == v@[k]@,
        decreases n - i,
    {
        r.push(v[i].clone());
        i += 1;
    }
    proof {
        assert forall|k: int| 0 <= k < n implies r.deep_view()[k] == v.deep_view()[k] by {
            assert(r@[k]@ == v@[k]@);
        }
        assert(r.deep_view() =~= v.deep_view());
    }
    r
}

} // verus!
