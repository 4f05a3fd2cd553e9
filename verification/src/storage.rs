//! Core of the networked storage backend.
//!
//! The backend is a standalone peer that answers `Hello`, `Store` and
//! `Get` requests against one key-indexed store of append-only logs — the
//! same primitives as the node's commit-log engine.  This module holds the
//! store and the request/response decision; the embedding program owns the
//! sockets, decodes each request, applies it here, and encodes the answer.
//! Mutations per key are serialized by the embedding program's exclusive
//! access boundary, so concurrent clients observe one consistent append
//! order per key.

use vstd::prelude::*;

use crate::store::{log_of, LogStore};

verus! {

/// A request from a client of the backend.
pub enum ClientPacket {
    Hello,
    Store { key: String, msg: usize },
    Get { key: String, offset: usize },
}

/// The backend's answer to the request of the same kind.
pub enum StoragePacket {
    Hello,
    Store(usize),
    Get(Vec<usize>),
}

/// What a `Get` request returns: every value of the key's log at or after
/// the requested offset, in log order; empty when the key is absent or the
/// offset lies at or beyond the log's end.
pub open spec fn read_from(m: Map<Seq<char>, Seq<usize>>, k: Seq<char>, offset: usize) -> Seq<
    usize,
> {
    if m.contains_key(k) && offset < m[k].len() {
        m[k].skip(offset as int)
    } else {
        Seq::empty()
    }
}

/// The backend's store: a mapping from key to its append-only log.
pub struct Storage {
    pub map: LogStore,
}

impl View for Storage {
    type V = Map<Seq<char>, Seq<usize>>;

    open spec fn view(&self) -> Map<Seq<char>, Seq<usize>> {
        self.map@
    }
}

impl Storage {
    /// The store's internal invariant.
    pub open spec fn wf(self) -> bool {
        self.map.wf()
    }

    /// An empty backend store.
    pub fn new() -> (s: Storage)
        ensures
            s@ == Map::<Seq<char>, Seq<usize>>::empty(),
            s.wf(),
    {
        Storage { map: LogStore::new() }
    }

    /// Answers one request.  A `Store` appends the value to the key's log
    /// and returns the offset just assigned — the log's length before the
    /// append, so concurrent-by-turn stores on one key receive distinct,
    /// dense offsets in arrival order.  A `Get` reads the log from the
    /// requested offset and never changes anything; neither does `Hello`.
    pub fn apply(&mut self, packet: ClientPacket) -> (resp: StoragePacket)
        requires
            old(self).wf(),
        ensures
            final(self).wf(),
            packet is Hello ==> resp is Hello && final(self)@ == old(self)@,
            (packet matches ClientPacket::Store { key, msg } ==> final(self)@ == old(
                self,
            )@.insert(key@, log_of(old(self)@, key@).push(msg)) && (resp matches
            StoragePacket::Store(offset) && offset == log_of(old(self)@, key@).len())),
            (packet matches ClientPacket::Get { key, offset } ==> final(self)@ == old(self)@ && (
            resp matches StoragePacket::Get(vals) && vals@ == read_from(
                old(self)@,
                key@,
                offset,
            ))),
    {
        match packet {
            ClientPacket::Hello => StoragePacket::Hello,
            ClientPacket::Store { key, msg } => {
                let offset = self.map.send(key, msg);
                StoragePacket::Store(offset)
            },
            ClientPacket::Get { key, offset } => {
                let mut vals: Vec<usize> = Vec::new();
                match self.map.get_log(&key) {
                    Some(log) => {
                        let n = log.len();
                        let mut j: usize = offset;
                        while j < n
                            invariant
                                offset <= j <= n || (offset >= n && j == offset),
                                n == log@.len(),
                                offset < n ==> vals@ == log@.subrange(offset as int, j as int),
                                offset >= n ==> vals@.len() == 0,
                            decreases n - j,
                        {
                            vals.push(log[j]);
                            proof {
                                assert(vals@ =~= log@.subrange(offset as int, j as int + 1));
                            }
                            j += 1;
                        }
                        proof {
                            if offset < n {
                                assert(vals@ =~= log@.skip(offset as int));
                            } else {
                                assert(vals@ =~= Seq::<usize>::empty());
                            }
                        }
                    },
                    None => {
                        proof {
                            assert(vals@ =~= Seq::<usize>::empty());
                        }
                    },
                }
                StoragePacket::Get(vals)
            },
        }
    }
}

} // verus!
