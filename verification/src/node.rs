//! The node runtime and protocol state machine.
//!
//! A node is created without an identity, learns its id and the cluster
//! membership exactly once through the initialization payload, and from
//! then on answers application payloads: gossip broadcast and the per-key
//! commit log.  Every inbound envelope yields at most one reply envelope,
//! plus one rumor envelope per neighbor when a broadcast or a fresh rumor
//! is re-disseminated.  Rejections never escape as failures: each becomes
//! an error-class reply carrying one of the protocol's fixed codes.
//!
//! The whole step is pinned by [`Node::proceed_rel`] (how the state and
//! the outcome relate to the inbound payload) and [`outbox_rel`] (how the
//! outbound envelopes relate to the outcome).

use vstd::prelude::*;

use crate::gossip::{neighbors_after, topo_lookup, topo_view, Gossip};
use crate::protocol::{Body, ErrorCode, Message, NodeError, Payload};
use crate::store::{
    log_of, poll_result_view, reqs_view, spec_commit_all, spec_list_committed, spec_poll,
    CommitStore, LogStore,
};

verus! {

/// Node lifecycle state: an id is learned exactly once.
pub enum NodeState {
    Created,
    Initialized { id: String },
}

/// What the state machine decided for one inbound payload: the reply
/// payload (`DontReply` when the payload is absorbed), and a rumor to
/// forward to every current neighbor, if re-dissemination is due.
pub struct Outcome {
    pub reply: Payload,
    pub rumor: Option<(u128, u64)>,
}

/// One cluster node: lifecycle state, reply id counter, membership, and
/// the two application engines.
pub struct Node {
    pub state: NodeState,
    pub next_message_id: i32,
    pub all_node_ids: Vec<String>,
    pub gossip: Gossip,
    pub log: LogStore,
    pub commits: CommitStore,
}

impl Node {
    /// The engines' internal invariants.
    pub open spec fn wf(self) -> bool {
        self.gossip.wf() && self.log.wf() && self.commits.wf()
    }

    /// This node's id; meaningful only once initialized.
    pub open spec fn node_id(self) -> Seq<char> {
        match self.state {
            NodeState::Initialized { id } => id@,
            NodeState::Created => Seq::empty(),
        }
    }

    /// Everything but the reply id counter is unchanged.
    pub open spec fn same_but_counter(pre: Node, post: Node) -> bool {
        &&& post.state == pre.state
        &&& post.all_node_ids == pre.all_node_ids
        &&& post.gossip == pre.gossip
        &&& post.log == pre.log
        &&& post.commits == pre.commits
    }

    /// Only the gossip engine may have changed (and the counter).
    pub open spec fn frame_gossip(pre: Node, post: Node) -> bool {
        &&& post.state == pre.state
        &&& post.all_node_ids == pre.all_node_ids
        &&& post.log == pre.log
        &&& post.commits == pre.commits
    }

    /// Only the log store may have changed (and the counter).
    pub open spec fn frame_log(pre: Node, post: Node) -> bool {
        &&& post.state == pre.state
        &&& post.all_node_ids == pre.all_node_ids
        &&& post.gossip == pre.gossip
        &&& post.commits == pre.commits
    }

    /// Only the commit bookmarks may have changed (and the counter).
    pub open spec fn frame_commits(pre: Node, post: Node) -> bool {
        &&& post.state == pre.state
        &&& post.all_node_ids == pre.all_node_ids
        &&& post.gossip == pre.gossip
        &&& post.log == pre.log
    }

    /// The protocol step relation: how the node state after one payload,
    /// and the outcome or rejection, relate to the state before it.  The
    /// reply id counter is deliberately unconstrained: enveloping draws
    /// from it separately.
    pub open spec fn proceed_rel(
        pre: Node,
        dst: Seq<char>,
        payload: Payload,
        fresh_token: u128,
        post: Node,
        r: Result<Outcome, NodeError>,
    ) -> bool {
        match pre.state {
            NodeState::Created => match payload {
                Payload::Init { node_id, node_ids } => {
                    &&& r matches Ok(o) && o.reply is InitOk && o.rumor is None
                    &&& post.state matches NodeState::Initialized { id } && id == node_id
                    &&& post.all_node_ids == node_ids
                    &&& post.gossip == pre.gossip
                    &&& post.log == pre.log
                    &&& post.commits == pre.commits
                },
                _ => {
                    &&& r == Err::<Outcome, NodeError>(NodeError::UnacceptablePayloadForState)
                    &&& Node::same_but_counter(pre, post)
                },
            },
            NodeState::Initialized { id } => {
                if dst != id@ {
                    &&& r == Err::<Outcome, NodeError>(NodeError::NodeIdMismatch)
                    &&& Node::same_but_counter(pre, post)
                } else {
                    match payload {
                        Payload::Init { .. } => {
                            &&& r == Err::<Outcome, NodeError>(
                                NodeError::UnacceptablePayloadForState,
                            )
                            &&& Node::same_but_counter(pre, post)
                        },
                        Payload::Echo { echo } => {
                            &&& r matches Ok(o) && o.rumor is None && (o.reply matches
                                Payload::EchoOk { echo: back } && back == echo)
                            &&& Node::same_but_counter(pre, post)
                        },
                        Payload::Generate => {
                            &&& r matches Ok(o) && o.rumor is None && o.reply == (
                            Payload::GenerateOk { id: fresh_token })
                            &&& Node::same_but_counter(pre, post)
                        },
                        Payload::Add { .. } => {
                            &&& r == Err::<Outcome, NodeError>(NodeError::CurrentlyUnsupported)
                            &&& Node::same_but_counter(pre, post)
                        },
                        Payload::Broadcast { message } => {
                            &&& r matches Ok(o) && o.reply is BroadcastOk && o.rumor == Some(
                                (fresh_token, message),
                            )
                            &&& post.gossip.value_set() == pre.gossip.value_set().insert(message)
                            &&& post.gossip.seen_set() == pre.gossip.seen_set().insert(
                                fresh_token,
                            )
                            &&& post.gossip.neighbors == pre.gossip.neighbors
                            &&& Node::frame_gossip(pre, post)
                        },
                        Payload::Rumor { rumor_id, message } => {
                            let fresh = !pre.gossip.seen_set().contains(rumor_id);
                            &&& r matches Ok(o) && o.reply is RumorOk && o.rumor == (if fresh {
                                Some((rumor_id, message))
                            } else {
                                None
                            })
                            &&& (fresh ==> post.gossip.value_set() == pre.gossip.value_set().insert(
                                message,
                            ) && post.gossip.seen_set() == pre.gossip.seen_set().insert(rumor_id)
                                && post.gossip.neighbors == pre.gossip.neighbors)
                            &&& (!fresh ==> post.gossip == pre.gossip)
                            &&& Node::frame_gossip(pre, post)
                        },
                        Payload::Read => {
                            &&& r matches Ok(o) && o.rumor is None && (o.reply matches
                                Payload::ReadOk { messages } && messages@ == pre.gossip.values@)
                            &&& Node::same_but_counter(pre, post)
                        },
                        Payload::Topology { topology } => {
                            &&& (match topo_lookup(topo_view(topology@), id@) {
                                Some(l) => {
                                    &&& r matches Ok(o) && o.reply is TopologyOk && o.rumor is None
                                    &&& post.gossip.neighbor_ids() == l
                                },
                                None => {
                                    &&& r == Err::<Outcome, NodeError>(NodeError::IllegalPayload)
                                    &&& post.gossip == pre.gossip
                                },
                            })
                            &&& post.gossip.neighbor_ids() == neighbors_after(
                                pre.gossip.neighbor_ids(),
                                topo_view(topology@),
                                id@,
                            )
                            &&& post.gossip.values == pre.gossip.values
                            &&& post.gossip.seen == pre.gossip.seen
                            &&& Node::frame_gossip(pre, post)
                        },
                        Payload::Send { key, msg } => {
                            &&& r matches Ok(o) && o.rumor is None && (o.reply matches
                                Payload::SendOk { offset } && offset == log_of(
                                pre.log@,
                                key@,
                            ).len())
                            &&& post.log@ == pre.log@.insert(
                                key@,
                                log_of(pre.log@, key@).push(msg),
                            )
                            &&& Node::frame_log(pre, post)
                        },
                        Payload::Poll { offsets } => {
                            &&& r matches Ok(o) && o.rumor is None && (o.reply matches
                                Payload::PollOk { messages } && poll_result_view(messages@)
                                == spec_poll(pre.log@, reqs_view(offsets@)))
                            &&& Node::same_but_counter(pre, post)
                        },
                        Payload::CommitOffsets { offsets } => {
                            &&& r matches Ok(o) && o.rumor is None && o.reply is CommitOffsetsOk
                            &&& post.commits@ == spec_commit_all(pre.commits@, reqs_view(offsets@))
                            &&& Node::frame_commits(pre, post)
                        },
                        Payload::ListCommittedOffsets { keys } => {
                            &&& r matches Ok(o) && o.rumor is None && (o.reply matches
                                Payload::ListCommittedOffsetsOk { offsets } && reqs_view(offsets@)
                                == spec_list_committed(pre.commits@, keys.deep_view()))
                            &&& Node::same_but_counter(pre, post)
                        },
                        Payload::InitOk | Payload::DontReply => {
                            &&& r == Err::<Outcome, NodeError>(NodeError::IllegalPayloadType)
                            &&& Node::same_but_counter(pre, post)
                        },
                        _ => {
                            &&& r matches Ok(o) && o.reply is DontReply && o.rumor is None
                            &&& Node::same_but_counter(pre, post)
                        },
                    }
                }
            },
        }
    }

    /// A fresh node: no identity, no knowledge, empty stores, and the
    /// reply id counter seeded at the bottom of its range so reply ids
    /// stay clear of harness-assigned request ids.
    pub fn new() -> (n: Node)
        ensures
            n.state is Created,
            n.next_message_id == i32::MIN,
            n.all_node_ids@.len() == 0,
            n.gossip.value_set() == Set::<u64>::empty(),
            n.gossip.seen_set() == Set::<u128>::empty(),
            n.gossip.neighbor_ids() == Seq::<Seq<char>>::empty(),
            n.log@ == Map::<Seq<char>, Seq<usize>>::empty(),
            n.commits@ == Map::<Seq<char>, usize>::empty(),
            n.wf(),
    {
        Node {
            state: NodeState::Created,
            next_message_id: i32::MIN,
            all_node_ids: Vec::new(),
            gossip: Gossip::new(),
            log: LogStore::new(),
            commits: CommitStore::new(),
        }
    }

    /// Draws the next reply message id: strictly increasing, incremented
    /// before use.
    pub fn next_message_id(&mut self) -> (id: i32)
        requires
            old(self).next_message_id < i32::MAX,
        ensures
            id == old(self).next_message_id + 1,
            final(self).next_message_id == id,
            Node::same_but_counter(*old(self), *final(self)),
    {
        self.next_message_id = self.next_message_id + 1;
        self.next_message_id
    }

    /// Converts a rejection into the error-class reply payload carrying
    /// its fixed numeric code and a human-readable message.
    pub fn wrap_err(&self, err: &NodeError) -> (p: Payload)
        ensures
            p matches Payload::Error { code, text } && code == err.spec_error_code()
                && text@.len() > 0,
    {
        Payload::Error { code: err.error_code(), text: err.describe() }
    }

    /// Envelopes a reply payload: the source is this node's own id once
    /// initialized (whatever the inbound addressing said), the destination
    /// is the original sender, `in_reply_to` echoes the request's id, and
    /// the message id is freshly drawn.
    pub fn wrap_payload(&mut self, payload: Payload, src: String, dst: String, msg_id: Option<
        i32,
    >) -> (m: Message)
        requires
            old(self).next_message_id < i32::MAX,
        ensures
            final(self).next_message_id == old(self).next_message_id + 1,
            Node::same_but_counter(*old(self), *final(self)),
            (old(self).state matches NodeState::Initialized { id } ==> m.src == id),
            (old(self).state is Created ==> m.src == src),
            m.dst == dst,
            m.body.msg_id == Some((old(self).next_message_id + 1) as i32),
            m.body.in_reply_to == msg_id,
            m.body.payload == payload,
    {
        let source = match &self.state {
            NodeState::Initialized { id } => id.clone(),
            NodeState::Created => src,
        };
        let id_no = self.next_message_id();
        Message {
            src: source,
            dst,
            body: Body { msg_id: Some(id_no), in_reply_to: msg_id, payload },
        }
    }

    /// Runs one inbound payload through the state machine: enforces the
    /// lifecycle and addressing rules, dispatches application payloads to
    /// the engines, and returns the outcome or the rejection.
    ///
    /// `fresh_token` is a fresh 128-bit token from the caller's randomness
    /// source: the rumor identifier to mint when this payload is a
    /// broadcast, and the unique id a generate request is answered with.
    pub fn proceed_message(&mut self, dst: &String, payload: Payload, fresh_token: u128) -> (r:
        Result<Outcome, NodeError>)
        requires
            old(self).wf(),
        ensures
            final(self).wf(),
            final(self).next_message_id == old(self).next_message_id,
            Node::proceed_rel(
                *old(self),
                dst@,
                payload,
                fresh_token,
                *final(self),
                r,
            ),
    {
        match &self.state {
            NodeState::Created => match payload {
                Payload::Init { node_id, node_ids } => {
                    self.all_node_ids = node_ids;
                    self.state = NodeState::Initialized { id: node_id };
                    Ok(Outcome { reply: Payload::InitOk, rumor: None })
                },
                _ => Err(NodeError::UnacceptablePayloadForState),
            },
            NodeState::Initialized { id } => {
                if !(*id == *dst) {
                    return Err(NodeError::NodeIdMismatch);
                }
                let self_id = id.clone();
                match payload {
                    Payload::Init { .. } => Err(NodeError::UnacceptablePayloadForState),
                    Payload::Echo { echo } => Ok(
                        Outcome { reply: Payload::EchoOk { echo }, rumor: None },
                    ),
                    Payload::Generate => Ok(
                        Outcome { reply: Payload::GenerateOk { id: fresh_token }, rumor: None },
                    ),
                    Payload::Add { .. } => Err(NodeError::CurrentlyUnsupported),
                    Payload::Broadcast { message } => {
                        self.gossip.on_broadcast(message, fresh_token);
                        Ok(
                            Outcome {
                                reply: Payload::BroadcastOk,
                                rumor: Some((fresh_token, message)),
                            },
                        )
                    },
                    Payload::Rumor { rumor_id, message } => {
                        let fresh = self.gossip.on_rumor(rumor_id, message);
                        Ok(
                            Outcome {
                                reply: Payload::RumorOk,
                                rumor: if fresh {
                                    Some((rumor_id, message))
                                } else {
                                    None
                                },
                            },
                        )
                    },
                    Payload::Read => {
                        let messages = self.gossip.values_list();
                        Ok(Outcome { reply: Payload::ReadOk { messages }, rumor: None })
                    },
                    Payload::Topology { topology } => {
                        let ok = self.gossip.apply_topology(&topology, &self_id);
                        if ok {
                            Ok(Outcome { reply: Payload::TopologyOk, rumor: None })
                        } else {
                            Err(NodeError::IllegalPayload)
                        }
                    },
                    Payload::Send { key, msg } => {
                        let offset = self.log.send(key, msg);
                        Ok(Outcome { reply: Payload::SendOk { offset }, rumor: None })
                    },
                    Payload::Poll { offsets } => {
                        let n = offsets.len();
                        let mut messages: Vec<(String, Vec<(usize, usize)>)> = Vec::new();
                        let mut i: usize = 0;
                        proof {
                            assert(reqs_view(offsets@).take(0) =~= Seq::<
                                (Seq<char>, usize),
                            >::empty());
                            assert(poll_result_view(messages@) =~= Seq::<
                                (Seq<char>, Seq<(usize, usize)>),
                            >::empty());
                        }
                        while i < n
                            invariant
                                0 <= i <= n,
                                n == offsets@.len(),
                                *self == *old(self),
                                old(self).wf(),
                                poll_result_view(messages@) == spec_poll(
                                    self.log@,
                                    reqs_view(offsets@).take(i as int),
                                ),
                            decreases n - i,
                        {
                            let start = offsets[i].1;
                            let ghost prev = messages@;
                            match self.log.poll_entries(&offsets[i].0, start) {
                                Some(pairs) => {
                                    let ghost pairs_view = pairs@;
                                    messages.push((offsets[i].0.clone(), pairs));
                                    proof {
                                        assert(poll_result_view(messages@) =~= poll_result_view(
                                            prev,
                                        ).push((offsets@[i as int].0@, pairs_view)));
                                    }
                                },
                                None => {},
                            }
                            proof {
                                let rv = reqs_view(offsets@);
                                assert(rv.take(i as int + 1).drop_last() =~= rv.take(i as int));
                                assert(rv.take(i as int + 1).last() == rv[i as int]);
                                assert(rv[i as int] == (offsets@[i as int].0@, offsets@[
                                    i as int].1));
                            }
                            i += 1;
                        }
                        proof {
                            assert(reqs_view(offsets@).take(n as int) =~= reqs_view(offsets@));
                        }
                        Ok(Outcome { reply: Payload::PollOk { messages }, rumor: None })
                    },
                    Payload::CommitOffsets { offsets } => {
                        let n = offsets.len();
                        let mut i: usize = 0;
                        proof {
                            assert(reqs_view(offsets@).take(0) =~= Seq::<
                                (Seq<char>, usize),
                            >::empty());
                        }
                        while i < n
                            invariant
                                0 <= i <= n,
                                n == offsets@.len(),
                                old(self).wf(),
                                self.commits.wf(),
                                self.state == old(self).state,
                                self.next_message_id == old(self).next_message_id,
                                self.all_node_ids == old(self).all_node_ids,
                                self.gossip == old(self).gossip,
                                self.log == old(self).log,
                                self.commits@ == spec_commit_all(
                                    old(self).commits@,
                                    reqs_view(offsets@).take(i as int),
                                ),
                            decreases n - i,
                        {
                            let key = offsets[i].0.clone();
                            let off = offsets[i].1;
                            self.commits.commit(key, off);
                            proof {
                                let rv = reqs_view(offsets@);
                                assert(rv.take(i as int + 1).drop_last() =~= rv.take(i as int));
                                assert(rv.take(i as int + 1).last() == rv[i as int]);
                                assert(rv[i as int] == (offsets@[i as int].0@, offsets@[
                                    i as int].1));
                            }
                            i += 1;
                        }
                        proof {
                            assert(reqs_view(offsets@).take(n as int) =~= reqs_view(offsets@));
                        }
                        Ok(Outcome { reply: Payload::CommitOffsetsOk, rumor: None })
                    },
                    Payload::ListCommittedOffsets { keys } => {
                        let n = keys.len();
                        let mut result: Vec<(String, usize)> = Vec::new();
                        let mut i: usize = 0;
                        proof {
                            assert(keys.deep_view().take(0) =~= Seq::<Seq<char>>::empty());
                            assert(reqs_view(result@) =~= Seq::<(Seq<char>, usize)>::empty());
                        }
                        while i < n
                            invariant
                                0 <= i <= n,
                                n == keys@.len(),
                                *self == *old(self),
                                old(self).wf(),
                                reqs_view(result@) == spec_list_committed(
                                    self.commits@,
                                    keys.deep_view().take(i as int),
                                ),
                            decreases n - i,
                        {
                            let ghost prev = result@;
                            match self.commits.get(&keys[i]) {
                                Some(v) => {
                                    result.push((keys[i].clone(), v));
                                    proof {
                                        assert(reqs_view(result@) =~= reqs_view(prev).push(
                                            (keys@[i as int]@, v),
                                        ));
                                    }
                                },
                                None => {},
                            }
                            proof {
                                let kv = keys.deep_view();
                                assert(kv.take(i as int + 1).drop_last() =~= kv.take(i as int));
                                assert(kv.take(i as int + 1).last() == kv[i as int]);
                                assert(kv[i as int] == keys@[i as int]@);
                            }
                            i += 1;
                        }
                        proof {
                            assert(keys.deep_view().take(n as int) =~= keys.deep_view());
                        }
                        Ok(
                            Outcome {
                                reply: Payload::ListCommittedOffsetsOk { offsets: result },
                                rumor: None,
                            },
                        )
                    },
                    Payload::InitOk | Payload::DontReply => Err(NodeError::IllegalPayloadType),
                    _ => Ok(Outcome { reply: Payload::DontReply, rumor: None }),
                }
            },
        }
    }
}

/// The source a reply envelope carries: the node's own id once
/// initialized, whatever the inbound addressing said; before that, the
/// destination the request used.
pub open spec fn reply_src(post: Node, request_dst: String) -> String {
    match post.state {
        NodeState::Initialized { id } => id,
        NodeState::Created => request_dst,
    }
}

/// The addressing of a reply envelope to a request from `req_src` to
/// `req_dst` that carried `req_msg_id`.
pub open spec fn envelope_frame(
    post: Node,
    req_src: String,
    req_dst: String,
    req_msg_id: Option<i32>,
    m: Message,
    id_no: i32,
) -> bool {
    &&& m.src == reply_src(post, req_dst)
    &&& m.dst == req_src
    &&& m.body.msg_id == Some(id_no)
    &&& m.body.in_reply_to == req_msg_id
}

/// A rumor envelope forwarded to `neighbor`: a fresh request from this
/// node, not a reply to anything.
pub open spec fn rumor_envelope(
    post: Node,
    neighbor: String,
    m: Message,
    id_no: i32,
    rid: u128,
    val: u64,
) -> bool {
    &&& post.state matches NodeState::Initialized { id } && m.src == id
    &&& m.dst == neighbor
    &&& m.body.msg_id == Some(id_no)
    &&& m.body.in_reply_to is None
    &&& m.body.payload == (Payload::Rumor { rumor_id: rid, message: val })
}

/// How the outbound envelopes relate to one step's outcome: a rejection
/// becomes exactly one error-class reply; an outcome yields its reply
/// envelope unless the payload is absorbed, followed by one rumor envelope
/// per current neighbor when the outcome re-disseminates, all with
/// consecutive fresh message ids.
pub open spec fn outbox_rel(
    pre: Node,
    post: Node,
    req: Message,
    r: Result<Outcome, NodeError>,
    out: Seq<Message>,
) -> bool {
    match r {
        Err(e) => {
            &&& out.len() == 1
            &&& envelope_frame(
                post,
                req.src,
                req.dst,
                req.body.msg_id,
                out[0],
                (pre.next_message_id + 1) as i32,
            )
            &&& out[0].body.payload matches Payload::Error { code, text } && code
                == e.spec_error_code() && text@.len() > 0
        },
        Ok(o) => {
            let replies: int = if o.reply is DontReply {
                0
            } else {
                1
            };
            let fan: int = if o.rumor is Some {
                post.gossip.neighbors@.len() as int
            } else {
                0
            };
            &&& out.len() == replies + fan
            &&& (!(o.reply is DontReply) ==> envelope_frame(
                post,
                req.src,
                req.dst,
                req.body.msg_id,
                out[0],
                (pre.next_message_id + 1) as i32,
            ) && out[0].body.payload == o.reply)
            &&& (o.rumor matches Some(rv) ==> forall|k: int|
                #![trigger out[replies + k]]
                #![trigger post.gossip.neighbors@[k]]
                0 <= k < fan ==> rumor_envelope(
                    post,
                    post.gossip.neighbors@[k],
                    out[replies + k],
                    (pre.next_message_id + 1 + replies + k) as i32,
                    rv.0,
                    rv.1,
                ))
        },
    }
}

/// The message ids one handling step emits when the counter stands at
/// `counter` as the step begins: one per outbound envelope, consecutive,
/// starting just above the counter.  [`Node::handle_message`] ensures its
/// outbound ids are exactly these and that it advances the counter by the
/// number it emitted.
pub open spec fn step_ids(counter: int, n_out: nat) -> Seq<int> {
    Seq::new(n_out, |i: int| counter + 1 + i)
}

/// Every message id a whole run emits, in emission order: the steps' ids
/// concatenated, each step starting at the counter the one before left.
/// `sizes` gives how many envelopes each handled message produced.
pub open spec fn run_ids(counter: int, sizes: Seq<nat>) -> Seq<int>
    decreases sizes.len(),
{
    if sizes.len() == 0 {
        Seq::empty()
    } else {
        step_ids(counter, sizes.first()) + run_ids(counter + sizes.first(), sizes.drop_first())
    }
}

/// How many envelopes a whole run emits.
pub open spec fn run_len(sizes: Seq<nat>) -> int
    decreases sizes.len(),
{
    if sizes.len() == 0 {
        0
    } else {
        sizes.first() + run_len(sizes.drop_first())
    }
}

/// Across a whole run the emitted ids are exactly counter+1, counter+2,
/// ...: consecutive from the seed, however many messages were handled and
/// however many envelopes each produced.
pub proof fn lemma_run_ids_consecutive(counter: int, sizes: Seq<nat>)
    ensures
        run_ids(counter, sizes).len() == run_len(sizes),
        forall|i: int|
            0 <= i < run_ids(counter, sizes).len() ==> #[trigger] run_ids(counter, sizes)[i]
                == counter + 1 + i,
    decreases sizes.len(),
{
    if sizes.len() > 0 {
        let first: int = sizes.first() as int;
        let rest = run_ids(counter + sizes.first(), sizes.drop_first());
        lemma_run_ids_consecutive(counter + sizes.first(), sizes.drop_first());
        assert forall|i: int|
            0 <= i < run_ids(counter, sizes).len() implies #[trigger] run_ids(counter, sizes)[i]
            == counter + 1 + i by {
            if i >= first {
                assert(run_ids(counter, sizes)[i] == rest[i - first]);
            }
        }
    }
}

/// Id monotonicity over the process lifetime: within any run, of two ids
/// emitted one after the other the later is strictly greater, so reply ids
/// never repeat; seeded below zero they stay clear of harness-assigned
/// request ids by convention.
pub proof fn lemma_run_ids_never_repeat(counter: int, sizes: Seq<nat>, i: int, j: int)
    requires
        0 <= i < j < run_ids(counter, sizes).len(),
    ensures
        run_ids(counter, sizes)[i] < run_ids(counter, sizes)[j],
{
    lemma_run_ids_consecutive(counter, sizes);
}

/// The knowledge set never shrinks: whatever payload a node handles, and
/// whether it is accepted or rejected, every broadcast value the node knew
/// before the step it still knows after it.  Values spread monotonically,
/// which is what lets flooding converge on the union of all broadcast
/// values no matter how deliveries interleave.
pub proof fn lemma_knowledge_monotone(
    pre: Node,
    dst: Seq<char>,
    payload: Payload,
    fresh_token: u128,
    post: Node,
    r: Result<Outcome, NodeError>,
)
    requires
        Node::proceed_rel(pre, dst, payload, fresh_token, post, r),
    ensures
        pre.gossip.value_set().subset_of(post.gossip.value_set()),
{
}

/// One gossip-dissemination step, the heart of convergence: when an
/// initialized node handles a rumor addressed to it, a fresh rumor id puts
/// the value into the knowledge set, records the id, and sends the very
/// same rumor on to every current neighbor; an already-seen id changes no
/// state and triggers no forwarding, only the acknowledgement.  Together
/// with [`lemma_knowledge_monotone`] this is why flooding over a connected
/// topology settles every node's knowledge set on the union of all
/// broadcast values, in whatever order deliveries happen.
pub proof fn lemma_rumor_step(
    pre: Node,
    post: Node,
    req: Message,
    fresh_token: u128,
    rumor_id: u128,
    message: u64,
    r: Result<Outcome, NodeError>,
    out: Seq<Message>,
)
    requires
        Node::proceed_rel(pre, req.dst@, req.body.payload, fresh_token, post, r),
        outbox_rel(pre, post, req, r, out),
        pre.state matches NodeState::Initialized { id } && req.dst@ == id@,
        req.body.payload == (Payload::Rumor { rumor_id, message }),
    ensures
        !pre.gossip.seen_set().contains(rumor_id) ==> {
            &&& post.gossip.value_set().contains(message)
            &&& post.gossip.seen_set().contains(rumor_id)
            &&& out.len() == 1 + pre.gossip.neighbors@.len()
            &&& forall|k: int|
                0 <= k < pre.gossip.neighbors@.len() ==> (#[trigger] out[1 + k].body.payload) == (
                Payload::Rumor { rumor_id, message }) && out[1 + k].dst
                    == pre.gossip.neighbors@[k]
        },
        pre.gossip.seen_set().contains(rumor_id) ==> post.gossip == pre.gossip && out.len() == 1,
{
    if !pre.gossip.seen_set().contains(rumor_id) {
        assert(r is Ok);
        let o = r->Ok_0;
        assert(o.rumor == Some((rumor_id, message)));
        assert(!(o.reply is DontReply));
        let replies: int = if o.reply is DontReply {
            0
        } else {
            1
        };
        let fan: int = if o.rumor is Some {
            post.gossip.neighbors@.len() as int
        } else {
            0
        };
        assert(post.gossip.neighbors == pre.gossip.neighbors);
        assert(out.len() == replies + fan);
        assert forall|k: int| 0 <= k < pre.gossip.neighbors@.len() implies (#[trigger] out[1
            + k].body.payload) == (Payload::Rumor { rumor_id, message }) && out[1 + k].dst
            == pre.gossip.neighbors@[k] by {
            let rv = o.rumor->Some_0;
            assert(rv == (rumor_id, message));
            assert(rumor_envelope(
                post,
                post.gossip.neighbors@[k],
                out[replies + k],
                (pre.next_message_id + 1 + replies + k) as i32,
                rv.0,
                rv.1,
            ));
            assert(out[replies + k] == out[1 + k]);
        }
    }
}

/// The step relation never looks at the reply id counter of the state
/// after the step.
pub proof fn lemma_proceed_rel_counter_irrelevant(
    pre: Node,
    dst: Seq<char>,
    payload: Payload,
    fresh_token: u128,
    post1: Node,
    post2: Node,
    r: Result<Outcome, NodeError>,
)
    requires
        Node::proceed_rel(pre, dst, payload, fresh_token, post1, r),
        Node::same_but_counter(post1, post2),
    ensures
        Node::proceed_rel(pre, dst, payload, fresh_token, post2, r),
{
}

impl Node {
    /// Handles one inbound envelope end to end: runs it through the state
    /// machine and envelopes everything outbound, in order: the reply (if
    /// the payload is not absorbed), then one rumor envelope per neighbor
    /// when a broadcast or fresh rumor is re-disseminated.  Outbound
    /// message ids are consecutive and strictly increasing, so ids never
    /// repeat across the node's lifetime.
    ///
    /// Before initialization every payload but the initialization
    /// handshake draws exactly one malformed-request error reply, as does
    /// a repeated handshake.
    pub fn handle_message(&mut self, message: Message, fresh_token: u128) -> (out: Vec<Message>)
        requires
            old(self).wf(),
            old(self).next_message_id + 1 + old(self).gossip.neighbors@.len() <= i32::MAX,
        ensures
            final(self).wf(),
            final(self).next_message_id == old(self).next_message_id + out@.len(),
            forall|i: int|
                0 <= i < out@.len() ==> (#[trigger] out@[i].body.msg_id) == Some(
                    (old(self).next_message_id + 1 + i) as i32,
                ),
            forall|i: int|
                0 <= i < out@.len() ==> ((#[trigger] out@[i].body.msg_id) matches Some(n) && n
                    as int == step_ids(old(self).next_message_id as int, out@.len() as nat)[i]),
            exists|r: Result<Outcome, NodeError>|
                Node::proceed_rel(
                    *old(self),
                    message.dst@,
                    message.body.payload,
                    fresh_token,
                    *final(self),
                    r,
                ) && #[trigger] outbox_rel(*old(self), *final(self), message, r, out@),
            (old(self).state is Created && !(message.body.payload is Init) ==> out@.len() == 1 && (
            out@[0].body.payload matches Payload::Error { code, .. } && code
                == ErrorCode::MalformedRequest)),
            (old(self).state is Initialized && message.body.payload is Init ==> out@.len() == 1
                && (out@[0].body.payload matches Payload::Error { code, .. } && code
                == ErrorCode::MalformedRequest)),
    {
        let ghost req: Message = message;
        let Message { src, dst, body } = message;
        let Body { msg_id, in_reply_to: _, payload } = body;
        let mut out: Vec<Message> = Vec::new();
        let result = self.proceed_message(&dst, payload, fresh_token);
        let ghost r_wit: Result<Outcome, NodeError> = result;
        let ghost mid: Node = *self;
        match result {
            Ok(outcome) => {
                let ghost o_wit: Outcome = outcome;
                let Outcome { reply, rumor } = outcome;
                let has_reply = match &reply {
                    Payload::DontReply => false,
                    _ => true,
                };
                if has_reply {
                    let m = self.wrap_payload(reply, dst, src, msg_id);
                    out.push(m);
                }
                let ghost replies: int = out@.len() as int;
                if let Some((rid, val)) = rumor {
                    match &self.state {
                        NodeState::Initialized { id } => {
                            let own = id.clone();
                            let n = self.gossip.neighbors.len();
                            let mut k: usize = 0;
                            while k < n
                                invariant
                                    0 <= k <= n,
                                    n == self.gossip.neighbors@.len(),
                                    Node::same_but_counter(mid, *self),
                                    mid.state matches NodeState::Initialized { id: mid_id }
                                        && own == mid_id,
                                    mid.next_message_id == old(self).next_message_id,
                                    old(self).next_message_id + 1 + n <= i32::MAX,
                                    0 <= replies <= 1,
                                    out@.len() == replies + k,
                                    self.next_message_id == old(self).next_message_id + replies
                                        + k,
                                    (replies == 1 ==> envelope_frame(
                                        *self,
                                        req.src,
                                        req.dst,
                                        req.body.msg_id,
                                        out@[0],
                                        (old(self).next_message_id + 1) as i32,
                                    ) && out@[0].body.payload == o_wit.reply),
                                    forall|j: int|
                                        0 <= j < k ==> rumor_envelope(
                                            *self,
                                            self.gossip.neighbors@[j],
                                            #[trigger] out@[replies + j],
                                            (old(self).next_message_id + 1 + replies
                                                + j) as i32,
                                            rid,
                                            val,
                                        ),
                                decreases n - k,
                            {
                                let neighbor = self.gossip.neighbors[k].clone();
                                let id_no = self.next_message_id();
                                let m = Message {
                                    src: own.clone(),
                                    dst: neighbor,
                                    body: Body {
                                        msg_id: Some(id_no),
                                        in_reply_to: None,
                                        payload: Payload::Rumor { rumor_id: rid, message: val },
                                    },
                                };
                                out.push(m);
                                k += 1;
                            }
                            proof {
                                assert forall|i: int|
                                    0 <= i < out@.len() implies (#[trigger] out@[i].body.msg_id)
                                    == Some((old(self).next_message_id + 1 + i) as i32) by {
                                    if i >= replies {
                                        let j = i - replies;
                                        assert(rumor_envelope(
                                            *self,
                                            self.gossip.neighbors@[j],
                                            out@[replies + j],
                                            (old(self).next_message_id + 1 + replies + j) as i32,
                                            rid,
                                            val,
                                        ));
                                    }
                                }
                            }
                        },
                        NodeState::Created => {
                            proof {
                                assert(false);
                            }
                        },
                    }
                }
                proof {
                    lemma_proceed_rel_counter_irrelevant(
                        *old(self),
                        req.dst@,
                        req.body.payload,
                        fresh_token,
                        mid,
                        *self,
                        r_wit,
                    );
                    assert(outbox_rel(*old(self), *self, req, r_wit, out@));
                }
            },
            Err(e) => {
                let p = self.wrap_err(&e);
                let m = self.wrap_payload(p, dst, src, msg_id);
                out.push(m);
                proof {
                    lemma_proceed_rel_counter_irrelevant(
                        *old(self),
                        req.dst@,
                        req.body.payload,
                        fresh_token,
                        mid,
                        *self,
                        r_wit,
                    );
                    assert(outbox_rel(*old(self), *self, req, r_wit, out@));
                }
            },
        }
        out
    }
}

} // verus!
