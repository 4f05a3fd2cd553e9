//! Per-key append-only logs and commit bookmarks.
//!
//! Both stores hold their entries as a vector of key/value pairs with
//! pairwise-distinct keys, and are specified against the finite map the
//! pairs denote: `LogStore` models `Map<Seq<char>, Seq<usize>>`, and
//! `CommitStore` models `Map<Seq<char>, usize>`.
//!
//! A log's offsets are positions: the entry appended by the n-th send to a
//! key sits at offset n.  A commit bookmark is an arbitrary number the
//! caller chose; it is never validated against the log's extent.

use vstd::prelude::*;

verus! {

/// The finite map denoted by a sequence of key/value pairs; on duplicate
/// keys the later pair wins.
pub open spec fn assoc_map<V>(s: Seq<(Seq<char>, V)>) -> Map<Seq<char>, V>
    decreases s.len(),
{
    if s.len() == 0 {
        Map::empty()
    } else {
        assoc_map(s.drop_last()).insert(s.last().0, s.last().1)
    }
}

/// All keys of the pair sequence are pairwise distinct.
pub open spec fn distinct_keys<V>(s: Seq<(Seq<char>, V)>) -> bool {
    forall|i: int, j: int| 0 <= i < j < s.len() ==> s[i].0 != s[j].0
}

/// A key is in the denoted map exactly when some pair carries it.
pub proof fn lemma_assoc_map_contains<V>(s: Seq<(Seq<char>, V)>, k: Seq<char>)
    ensures
        assoc_map(s).contains_key(k) <==> exists|i: int| 0 <= i < s.len() && s[i].0 == k,
    decreases s.len(),
{
    if s.len() > 0 {
        lemma_assoc_map_contains(s.drop_last(), k);
        if s.last().0 == k {
            assert(s[s.len() - 1].0 == k);
        } else if assoc_map(s).contains_key(k) {
            let i = choose|i: int| 0 <= i < s.drop_last().len() && s.drop_last()[i].0 == k;
            assert(s[i].0 == k);
        } else if exists|i: int| 0 <= i < s.len() && s[i].0 == k {
            let i = choose|i: int| 0 <= i < s.len() && s[i].0 == k;
            assert(s.drop_last()[i].0 == k);
        }
    }
}

/// With distinct keys, each pair is the map's binding for its key.
pub proof fn lemma_assoc_map_index<V>(s: Seq<(Seq<char>, V)>, i: int)
    requires
        distinct_keys(s),
        0 <= i < s.len(),
    ensures
        assoc_map(s).contains_key(s[i].0),
        assoc_map(s)[s[i].0] == s[i].1,
    decreases s.len(),
{
    if i == s.len() - 1 {
    } else {
        assert(distinct_keys(s.drop_last())) by {
            assert(forall|p: int, q: int|
                0 <= p < q < s.drop_last().len() ==> s.drop_last()[p] == s[p] && s.drop_last()[q]
                    == s[q]);
        }
        lemma_assoc_map_index(s.drop_last(), i);
        assert(s[i].0 != s.last().0);
    }
}

/// Appending a pair inserts its binding.
pub proof fn lemma_assoc_map_push<V>(s: Seq<(Seq<char>, V)>, k: Seq<char>, v: V)
    ensures
        assoc_map(s.push((k, v))) == assoc_map(s).insert(k, v),
{
    assert(s.push((k, v)).drop_last() =~= s);
}

/// With distinct keys, replacing the value of the pair at `i` updates that
/// key's binding and nothing else.
pub proof fn lemma_assoc_map_update<V>(s: Seq<(Seq<char>, V)>, i: int, v: V)
    requires
        distinct_keys(s),
        0 <= i < s.len(),
    ensures
        assoc_map(s.update(i, (s[i].0, v))) == assoc_map(s).insert(s[i].0, v),
    decreases s.len(),
{
    let t = s.update(i, (s[i].0, v));
    if i == s.len() - 1 {
        assert(t.drop_last() =~= s.drop_last());
        assert(assoc_map(t) == assoc_map(s.drop_last()).insert(s[i].0, v));
        assert(assoc_map(s).insert(s[i].0, v) =~= assoc_map(s.drop_last()).insert(s[i].0, v));
    } else {
        assert(distinct_keys(s.drop_last())) by {
            assert(forall|p: int, q: int|
                0 <= p < q < s.drop_last().len() ==> s.drop_last()[p] == s[p] && s.drop_last()[q]
                    == s[q]);
        }
        assert(t.drop_last() =~= s.drop_last().update(i, (s[i].0, v)));
        lemma_assoc_map_update(s.drop_last(), i, v);
        assert(t.last() == s.last());
        assert(s[i].0 != s.last().0);
        assert(assoc_map(s.drop_last()).insert(s[i].0, v).insert(s.last().0, s.last().1)
            =~= assoc_map(s.drop_last()).insert(s.last().0, s.last().1).insert(s[i].0, v));
    }
}

/// The log bound to `k`, or the empty log if `k` has none.
pub open spec fn log_of(m: Map<Seq<char>, Seq<usize>>, k: Seq<char>) -> Seq<usize> {
    if m.contains_key(k) {
        m[k]
    } else {
        Seq::empty()
    }
}

/// A mapping from keys to ordered, append-only logs of integers.
pub struct LogStore {
    pub entries: Vec<(String, Vec<usize>)>,
}

impl View for LogStore {
    type V = Map<Seq<char>, Seq<usize>>;

    open spec fn view(&self) -> Map<Seq<char>, Seq<usize>> {
        assoc_map(self.key_seq())
    }
}

impl LogStore {
    /// The store's pairs with both components abstracted to their views.
    pub open spec fn key_seq(self) -> Seq<(Seq<char>, Seq<usize>)> {
        self.entries@.map(|i: int, e: (String, Vec<usize>)| (e.0@, e.1@))
    }

    /// No two entries share a key.
    pub open spec fn wf(self) -> bool {
        distinct_keys(self.key_seq())
    }

    /// An empty store.
    pub fn new() -> (s: LogStore)
        ensures
            s@ == Map::<Seq<char>, Seq<usize>>::empty(),
            s.wf(),
    {
        let s = LogStore { entries: Vec::new() };
        proof {
            assert(s.key_seq() =~= Seq::<(Seq<char>, Seq<usize>)>::empty());
        }
        s
    }

    /// Appends `msg` to `key`'s log, creating the log if absent, and
    /// returns the offset just assigned: the log's length before the
    /// append, so per key the offsets run 0, 1, 2, ... densely.
    pub fn send(&mut self, key: String, msg: usize) -> (offset: usize)
        requires
            old(self).wf(),
        ensures
            final(self).wf(),
            offset == log_of(old(self)@, key@).len(),
            final(self)@ == old(self)@.insert(key@, log_of(old(self)@, key@).push(msg)),
    {
        let n = self.entries.len();
        let mut i: usize = 0;
        while i < n
            invariant
                0 <= i <= n,
                n == self.entries@.len(),
                *self == *old(self),
                old(self).wf(),
                forall|j: int| 0 <= j < i ==> self.entries@[j].0@ != key@,
            decreases n - i,
        {
            if self.entries[i].0 == key {
                let prior_len = self.entries[i].1.len();
                self.entries[i].1.push(msg);
                proof {
                    let ks = old(self).key_seq();
                    assert(self.key_seq() =~= ks.update(i as int, (key@, ks[i as int].1.push(
                        msg,
                    ))));
                    assert(ks[i as int].0 == key@);
                    lemma_assoc_map_update(ks, i as int, ks[i as int].1.push(msg));
                    lemma_assoc_map_index(ks, i as int);
                    assert(distinct_keys(self.key_seq()));
                }
                return prior_len;
            }
            i += 1;
        }
        proof {
            lemma_assoc_map_contains(old(self).key_seq(), key@);
            assert(!old(self)@.contains_key(key@));
        }
        let mut first_log: Vec<usize> = Vec::new();
        first_log.push(msg);
        self.entries.push((key, first_log));
        proof {
            let ks = old(self).key_seq();
            assert(self.key_seq() =~= ks.push((key@, seq![msg])));
            lemma_assoc_map_push(ks, key@, seq![msg]);
            assert(log_of(old(self)@, key@).push(msg) =~= seq![msg]);
            assert(distinct_keys(self.key_seq()));
        }
        0
    }

    /// The log recorded for `key`, if any.
    pub fn get_log(&self, key: &String) -> (r: Option<&Vec<usize>>)
        requires
            self.wf(),
        ensures
            match r {
                Some(v) => self@.contains_key(key@) && v@ == self@[key@],
                None => !self@.contains_key(key@),
            },
    {
        let n = self.entries.len();
        let mut i: usize = 0;
        while i < n
            invariant
                0 <= i <= n,
                n == self.entries@.len(),
                self.wf(),
                forall|j: int| 0 <= j < i ==> self.entries@[j].0@ != key@,
            decreases n - i,
        {
            if self.entries[i].0 == *key {
                proof {
                    lemma_assoc_map_index(self.key_seq(), i as int);
                }
                return Some(&self.entries[i].1);
            }
            i += 1;
        }
        proof {
            lemma_assoc_map_contains(self.key_seq(), key@);
        }
        None
    }

    /// The offset/value pairs of `key`'s log from `start` to its end, or
    /// `None` when the key has no log or the log ends at or before `start`.
    pub fn poll_entries(&self, key: &String, start: usize) -> (r: Option<Vec<(usize, usize)>>)
        requires
            self.wf(),
        ensures
            match r {
                Some(pairs) => self@.contains_key(key@) && start < self@[key@].len() && pairs@
                    == poll_pairs(self@[key@], start as int),
                None => !self@.contains_key(key@) || start >= self@[key@].len(),
            },
    {
        match self.get_log(key) {
            Some(log) => {
                let n = log.len();
                if start >= n {
                    return None;
                }
                let mut pairs: Vec<(usize, usize)> = Vec::new();
                let mut j: usize = start;
                while j < n
                    invariant
                        start <= j <= n,
                        n == log@.len(),
                        pairs@.len() == j - start,
                        forall|t: int|
                            0 <= t < pairs@.len() ==> #[trigger] pairs@[t] == ((
                            start + t) as usize, log@[start + t]),
                    decreases n - j,
                {
                    pairs.push((j, log[j]));
                    j += 1;
                }
                proof {
                    assert(pairs@ =~= poll_pairs(log@, start as int));
                }
                Some(pairs)
            },
            None => None,
        }
    }
}

/// A request list (key/number pairs) abstracted to views.
pub open spec fn reqs_view(offsets: Seq<(String, usize)>) -> Seq<(Seq<char>, usize)> {
    offsets.map(|i: int, e: (String, usize)| (e.0@, e.1))
}

/// A poll result abstracted to views.
pub open spec fn poll_result_view(v: Seq<(String, Vec<(usize, usize)>)>) -> Seq<
    (Seq<char>, Seq<(usize, usize)>),
> {
    v.map(|i: int, e: (String, Vec<(usize, usize)>)| (e.0@, e.1@))
}

/// The offset/value pairs of `log` from position `start` to the end,
/// ordered by ascending offset.
pub open spec fn poll_pairs(log: Seq<usize>, start: int) -> Seq<(usize, usize)>
    recommends
        0 <= start <= log.len(),
{
    Seq::new((log.len() - start) as nat, |i: int| ((start + i) as usize, log[start + i]))
}

/// What a poll over `reqs` returns against the logs `m`: one entry per
/// requested key that has a log with entries at or after the requested
/// start offset, in request order; other keys are omitted, never an error.
pub open spec fn spec_poll(m: Map<Seq<char>, Seq<usize>>, reqs: Seq<(Seq<char>, usize)>) -> Seq<
    (Seq<char>, Seq<(usize, usize)>),
>
    decreases reqs.len(),
{
    if reqs.len() == 0 {
        Seq::empty()
    } else {
        let rest = spec_poll(m, reqs.drop_last());
        let k = reqs.last().0;
        let start = reqs.last().1;
        if m.contains_key(k) && start < m[k].len() {
            rest.push((k, poll_pairs(m[k], start as int)))
        } else {
            rest
        }
    }
}

/// The bookmarks after every pair of `reqs` is committed in order: each
/// overwrites its key's bookmark unconditionally.
pub open spec fn spec_commit_all(m: Map<Seq<char>, usize>, reqs: Seq<(Seq<char>, usize)>) -> Map<
    Seq<char>,
    usize,
>
    decreases reqs.len(),
{
    if reqs.len() == 0 {
        m
    } else {
        spec_commit_all(m, reqs.drop_last()).insert(reqs.last().0, reqs.last().1)
    }
}

/// What listing committed offsets returns for `keys` against the bookmarks
/// `m`: each requested key that has a bookmark, with it, in request order;
/// keys without one are omitted.
pub open spec fn spec_list_committed(m: Map<Seq<char>, usize>, keys: Seq<Seq<char>>) -> Seq<
    (Seq<char>, usize),
>
    decreases keys.len(),
{
    if keys.len() == 0 {
        Seq::empty()
    } else {
        let rest = spec_list_committed(m, keys.drop_last());
        if m.contains_key(keys.last()) {
            rest.push((keys.last(), m[keys.last()]))
        } else {
            rest
        }
    }
}

/// The logs after a sequence of sends, each appending its value to its
/// key's log and creating the log when absent — the transition
/// [`LogStore::send`] makes, applied in call order.
pub open spec fn apply_sends(
    m: Map<Seq<char>, Seq<usize>>,
    ops: Seq<(Seq<char>, usize)>,
) -> Map<Seq<char>, Seq<usize>>
    decreases ops.len(),
{
    if ops.len() == 0 {
        m
    } else {
        let prev = apply_sends(m, ops.drop_last());
        prev.insert(ops.last().0, log_of(prev, ops.last().0).push(ops.last().1))
    }
}

/// The offset the send at position `i` of `ops` is assigned: its key's log
/// length just before it runs.
pub open spec fn send_offset(m: Map<Seq<char>, Seq<usize>>, ops: Seq<(Seq<char>, usize)>, i: int) -> int {
    log_of(apply_sends(m, ops.take(i)), ops[i].0).len() as int
}

/// The values the sends of `ops` append to key `k`, in call order.
pub open spec fn sends_for(ops: Seq<(Seq<char>, usize)>, k: Seq<char>) -> Seq<usize>
    decreases ops.len(),
{
    if ops.len() == 0 {
        Seq::empty()
    } else {
        let rest = sends_for(ops.drop_last(), k);
        if ops.last().0 == k {
            rest.push(ops.last().1)
        } else {
            rest
        }
    }
}

/// One more send is one more step: appending `(k, v)` to a send sequence
/// transforms the logs exactly as [`LogStore::send`]'s contract says one
/// call does.
pub proof fn lemma_apply_sends_step(
    m: Map<Seq<char>, Seq<usize>>,
    ops: Seq<(Seq<char>, usize)>,
    k: Seq<char>,
    v: usize,
)
    ensures
        apply_sends(m, ops.push((k, v))) == apply_sends(m, ops).insert(
            k,
            log_of(apply_sends(m, ops), k).push(v),
        ),
{
    assert(ops.push((k, v)).drop_last() =~= ops);
}

/// After any sequence of sends, interleaved across keys however they may
/// be, each key's log is what it was with exactly the values sent to that
/// key appended, in call order: no entry is lost, duplicated or reordered.
pub proof fn lemma_apply_sends_log(
    m: Map<Seq<char>, Seq<usize>>,
    ops: Seq<(Seq<char>, usize)>,
    k: Seq<char>,
)
    ensures
        log_of(apply_sends(m, ops), k) == log_of(m, k) + sends_for(ops, k),
    decreases ops.len(),
{
    if ops.len() == 0 {
        assert(log_of(m, k) + Seq::<usize>::empty() =~= log_of(m, k));
    } else {
        lemma_apply_sends_log(m, ops.drop_last(), k);
        let prev = apply_sends(m, ops.drop_last());
        if ops.last().0 == k {
            assert(log_of(m, k) + sends_for(ops, k) =~= (log_of(m, k) + sends_for(
                ops.drop_last(),
                k,
            )).push(ops.last().1));
        }
    }
}

/// Offset density: on a store that starts empty, the send at position `i`
/// of `ops` is assigned an offset equal to the number of earlier sends to
/// the same key — so for each fixed key the assigned offsets are exactly
/// 0, 1, 2, ... in call order, with no gaps and no repeats, however the
/// sends interleave across keys.
pub proof fn lemma_send_offsets_dense(ops: Seq<(Seq<char>, usize)>, i: int)
    requires
        0 <= i < ops.len(),
    ensures
        send_offset(Map::empty(), ops, i) == sends_for(ops.take(i), ops[i].0).len(),
{
    let k = ops[i].0;
    lemma_apply_sends_log(Map::empty(), ops.take(i), k);
    assert(log_of(Map::<Seq<char>, Seq<usize>>::empty(), k) =~= Seq::<usize>::empty());
    assert(Seq::<usize>::empty() + sends_for(ops.take(i), k) =~= sends_for(ops.take(i), k));
}

/// Committing a bookmark and then listing it returns exactly the committed
/// value, whatever bookmark the key had before; a commit touches no log, so
/// the value owes nothing to any log's extent, including a log the key
/// never had.
pub proof fn lemma_commit_bookmark_independent(m: Map<Seq<char>, usize>, k: Seq<char>, off: usize)
    ensures
        spec_list_committed(spec_commit_all(m, seq![(k, off)]), seq![k]) == seq![(k, off)],
{
    let reqs: Seq<(Seq<char>, usize)> = seq![(k, off)];
    let keys: Seq<Seq<char>> = seq![k];
    assert(reqs.drop_last() =~= Seq::<(Seq<char>, usize)>::empty());
    assert(spec_commit_all(m, reqs.drop_last()) == m);
    let committed = spec_commit_all(m, reqs);
    assert(committed == m.insert(k, off));
    assert(keys.drop_last() =~= Seq::<Seq<char>>::empty());
    assert(spec_list_committed(committed, keys.drop_last()) =~= Seq::<(Seq<char>, usize)>::empty());
    assert(committed.contains_key(k) && committed[k] == off);
    assert(spec_list_committed(committed, keys) =~= seq![(k, off)]);
}

/// A mapping from keys to the offset the caller last declared committed.
pub struct CommitStore {
    pub entries: Vec<(String, usize)>,
}

impl View for CommitStore {
    type V = Map<Seq<char>, usize>;

    open spec fn view(&self) -> Map<Seq<char>, usize> {
        assoc_map(self.key_seq())
    }
}

impl CommitStore {
    /// The store's pairs with keys abstracted to their views.
    pub open spec fn key_seq(self) -> Seq<(Seq<char>, usize)> {
        self.entries@.map(|i: int, e: (String, usize)| (e.0@, e.1))
    }

    /// No two entries share a key.
    pub open spec fn wf(self) -> bool {
        distinct_keys(self.key_seq())
    }

    /// An empty store.
    pub fn new() -> (s: CommitStore)
        ensures
            s@ == Map::<Seq<char>, usize>::empty(),
            s.wf(),
    {
        let s = CommitStore { entries: Vec::new() };
        proof {
            assert(s.key_seq() =~= Seq::<(Seq<char>, usize)>::empty());
        }
        s
    }

    /// Unconditionally overwrites `key`'s bookmark with `offset`; the value
    /// is a bookmark, never checked against any log's extent.
    pub fn commit(&mut self, key: String, offset: usize)
        requires
            old(self).wf(),
        ensures
            final(self).wf(),
            final(self)@ == old(self)@.insert(key@, offset),
    {
        let n = self.entries.len();
        let mut i: usize = 0;
        while i < n
            invariant
                0 <= i <= n,
                n == self.entries@.len(),
                *self == *old(self),
                old(self).wf(),
                forall|j: int| 0 <= j < i ==> self.entries@[j].0@ != key@,
            decreases n - i,
        {
            if self.entries[i].0 == key {
                self.entries[i].1 = offset;
                proof {
                    let ks = old(self).key_seq();
                    assert(self.key_seq() =~= ks.update(i as int, (key@, offset)));
                    assert(ks[i as int].0 == key@);
                    lemma_assoc_map_update(ks, i as int, offset);
                    assert(distinct_keys(self.key_seq()));
                }
                return ;
            }
            i += 1;
        }
        self.entries.push((key, offset));
        proof {
            let ks = old(self).key_seq();
            assert(self.key_seq() =~= ks.push((key@, offset)));
            lemma_assoc_map_push(ks, key@, offset);
            assert(distinct_keys(self.key_seq()));
        }
    }

    /// The bookmark recorded for `key`, if any.
    pub fn get(&self, key: &String) -> (r: Option<usize>)
        requires
            self.wf(),
        ensures
            match r {
                Some(v) => self@.contains_key(key@) && v == self@[key@],
                None => !self@.contains_key(key@),
            },
    {
        let n = self.entries.len();
        let mut i: usize = 0;
        while i < n
            invariant
                0 <= i <= n,
                n == self.entries@.len(),
                self.wf(),
                forall|j: int| 0 <= j < i ==> self.entries@[j].0@ != key@,
            decreases n - i,
        {
            if self.entries[i].0 == *key {
                proof {
                    lemma_assoc_map_index(self.key_seq(), i as int);
                }
                return Some(self.entries[i].1);
            }
            i += 1;
        }
        proof {
            lemma_assoc_map_contains(self.key_seq(), key@);
        }
        None
    }
}

} // verus!
