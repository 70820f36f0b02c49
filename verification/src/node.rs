//! The node session: the node's own identity, the monotonic id allocator,
//! and the dispatcher that routes a decoded envelope to its handler and
//! wraps the handler's result in a correlated reply.

use vstd::prelude::*;

use crate::protocol::{Body, Envelope, EnvelopeV, Payload, PayloadV};
use crate::store::BroadcastStore;

verus! {

/// The id an allocator hands out next, after handing out `n`: ids count
/// up by one and wrap at the top of the range.
pub open spec fn next_id_spec(n: u32) -> u32 {
    if n == u32::MAX {
        0
    } else {
        (n + 1) as u32
    }
}

/// Produces the `msg_id` of every outgoing message: a counter that starts
/// at zero and counts up by one per call, wrapping at the top of the
/// range. The surrounding transport loop is strictly sequential, so the
/// exclusive borrow taken by [`IdAllocator::msg_id`] is the allocator's
/// mutual-exclusion discipline.
pub struct IdAllocator {
    pub next: u32,
}

impl IdAllocator {
    /// A fresh allocator; the first id handed out is zero.
    pub fn new() -> (r: Self)
        ensures
            r.next == 0,
    {
        IdAllocator { next: 0 }
    }

    /// Returns a fresh message id and advances the counter.
    pub fn msg_id(&mut self) -> (r: u32)
        ensures
            r == old(self).next,
            final(self).next == next_id_spec(old(self).next),
    {
        let r = self.next;
        self.next = if self.next == u32::MAX {
            0
        } else {
            self.next + 1
        };
        r
    }
}

/// One call of [`IdAllocator::msg_id`]: it returns the counter and steps
/// the allocator from `pre` to `post`.
pub open spec fn alloc_step(pre: IdAllocator, post: IdAllocator, id: u32) -> bool {
    id == pre.next && post.next == next_id_spec(pre.next)
}

proof fn lemma_alloc_run_value(states: Seq<IdAllocator>, ids: Seq<u32>, k: int)
    requires
        states.len() == ids.len() + 1,
        forall|j: int| 0 <= j < ids.len() ==> alloc_step(states[j], states[j + 1], ids[j]),
        states[0].next + ids.len() <= u32::MAX + 1,
        0 <= k < ids.len(),
    ensures
        states[k].next == states[0].next + k,
    decreases k,
{
    if k > 0 {
        lemma_alloc_run_value(states, ids, k - 1);
        assert(alloc_step(states[k - 1], states[k], ids[k - 1]));
        assert(states[k - 1].next < u32::MAX);
    }
}

/// Across a run of sequential allocator calls that stays below the
/// wrap-around point, the returned ids are pairwise distinct.
pub proof fn lemma_ids_pairwise_distinct(states: Seq<IdAllocator>, ids: Seq<u32>)
    requires
        states.len() == ids.len() + 1,
        forall|j: int| 0 <= j < ids.len() ==> alloc_step(states[j], states[j + 1], ids[j]),
        states[0].next + ids.len() <= u32::MAX + 1,
    ensures
        forall|i: int, j: int| 0 <= i < j < ids.len() ==> ids[i] != ids[j],
{
    assert forall|i: int, j: int| 0 <= i < j < ids.len() implies ids[i] != ids[j] by {
        lemma_alloc_run_value(states, ids, i);
        lemma_alloc_run_value(states, ids, j);
        assert(alloc_step(states[i], states[i + 1], ids[i]));
        assert(alloc_step(states[j], states[j + 1], ids[j]));
    }
}

/// Relies on `uuid::Uuid::new_v4` and `Uuid`'s `Display` impl: a freshly
/// generated version-4 UUID rendered in the hyphenated form, which is 36
/// characters long. The result is random, so no two calls need agree and
/// nothing beyond its length is assumed.
#[verifier::external_body]
fn generate_unique_id() -> (r: String)
    ensures
        r@.len() == 36,
{
    uuid::Uuid::new_v4().to_string()
}

/// The reply `rep` answers the request `req`: it goes back to the
/// requester, comes from this node, carries the request's `msg_id` in
/// `in_reply_to`, and draws its own `msg_id` fresh from the allocator.
pub open spec fn correlated(rep: EnvelopeV, req: EnvelopeV, node: Seq<char>, id: u32) -> bool {
    &&& rep.dest == req.src
    &&& rep.src == node
    &&& rep.body.in_reply_to == req.body.msg_id
    &&& rep.body.msg_id == Some(id)
}

/// The model of an optional envelope.
pub open spec fn view_opt(r: Option<Envelope>) -> Option<EnvelopeV> {
    match r {
        Some(e) => Some(e@),
        None => None,
    }
}

/// What [`NodeSession::dispatch`] does, by payload kind: which requests
/// are answered and with what, how the store and the node identity move,
/// and that every reply is correlated to its request.
pub open spec fn dispatch_post(
    pre: NodeSession,
    post: NodeSession,
    pre_store: Set<u32>,
    post_store: Set<u32>,
    req: EnvelopeV,
    r: Option<EnvelopeV>,
) -> bool {
    match req.body.payload {
        PayloadV::Init { node_id, node_ids } => {
            &&& post.node_id@ == node_id
            &&& post.ids.next == next_id_spec(pre.ids.next)
            &&& post_store == pre_store
            &&& (r matches Some(rep) && correlated(rep, req, node_id, pre.ids.next)
                && rep.body.payload == PayloadV::InitOk)
        },
        PayloadV::Echo { echo } => {
            &&& post.node_id == pre.node_id
            &&& post.ids.next == next_id_spec(pre.ids.next)
            &&& post_store == pre_store
            &&& (r matches Some(rep) && correlated(rep, req, pre.node_id@, pre.ids.next)
                && rep.body.payload == (PayloadV::EchoOk { echo }))
        },
        PayloadV::Generate => {
            &&& post.node_id == pre.node_id
            &&& post.ids.next == next_id_spec(pre.ids.next)
            &&& post_store == pre_store
            &&& (r matches Some(rep) && correlated(rep, req, pre.node_id@, pre.ids.next)
                && (rep.body.payload matches PayloadV::GenerateOk { id } && id.len() == 36))
        },
        PayloadV::Broadcast { message } => {
            &&& post.node_id == pre.node_id
            &&& post.ids.next == next_id_spec(pre.ids.next)
            &&& post_store == pre_store.insert(message)
            &&& (r matches Some(rep) && correlated(rep, req, pre.node_id@, pre.ids.next)
                && rep.body.payload == PayloadV::BroadcastOk)
        },
        PayloadV::Read => {
            &&& post.node_id == pre.node_id
            &&& post.ids.next == next_id_spec(pre.ids.next)
            &&& post_store == pre_store
            &&& (r matches Some(rep) && correlated(rep, req, pre.node_id@, pre.ids.next)
                && (rep.body.payload matches PayloadV::ReadOk { messages }
                && messages.to_set() == pre_store && messages.no_duplicates()))
        },
        PayloadV::Topology => {
            &&& post.node_id == pre.node_id
            &&& post.ids.next == next_id_spec(pre.ids.next)
            &&& post_store == pre_store
            &&& (r matches Some(rep) && correlated(rep, req, pre.node_id@, pre.ids.next)
                && rep.body.payload == PayloadV::TopologyOk)
        },
        _ => {
            &&& post == pre
            &&& post_store == pre_store
            &&& r is None
        },
    }
}

/// The node's own identity and its id allocator. The identity is empty
/// before the `init` handshake and is overwritten by every `init` request
/// (a second `init` re-runs the handshake; that is the accepted current
/// behaviour).
pub struct NodeSession {
    pub node_id: String,
    pub ids: IdAllocator,
}

impl NodeSession {
    /// A fresh session: empty identity, ids starting at zero.
    pub fn new() -> (r: Self)
        ensures
            r.node_id@ == Seq::<char>::empty(),
            r.ids.next == 0,
    {
        NodeSession { node_id: String::new(), ids: IdAllocator::new() }
    }

    /// A new envelope answering `req`: addressed back to the requester,
    /// sent as this node, correlated to the request's `msg_id`, carrying a
    /// fresh `msg_id` and the given payload.
    fn reply(&mut self, req: &Envelope, payload: Payload) -> (r: Envelope)
        ensures
            final(self).node_id == old(self).node_id,
            final(self).ids.next == next_id_spec(old(self).ids.next),
            correlated(r@, req@, old(self).node_id@, old(self).ids.next),
            r@.body.payload == payload@,
    {
        let id = self.ids.msg_id();
        Envelope {
            src: self.node_id.clone(),
            dest: req.src.clone(),
            body: Body { msg_id: Some(id), in_reply_to: req.body.msg_id, payload },
        }
    }

    /// Routes one decoded envelope. Requests (`init`, `echo`, `generate`,
    /// `broadcast`, `read`, `topology`) produce a correlated reply;
    /// `error` payloads and response kinds are terminal and produce none.
    /// See [`dispatch_post`] for the exact behaviour per kind.
    pub fn dispatch(&mut self, store: &mut BroadcastStore, env: &Envelope) -> (r: Option<
        Envelope,
    >)
        requires
            old(store).wf(),
        ensures
            final(store).wf(),
            dispatch_post(
                *old(self),
                *final(self),
                old(store)@,
                final(store)@,
                env@,
                view_opt(r),
            ),
    {
        match &env.body.payload {
            Payload::Init { node_id, node_ids: _ } => {
                self.node_id = node_id.clone();
                Some(self.reply(env, Payload::InitOk))
            },
            Payload::Echo { echo } => {
                let echoed = echo.clone();
                Some(self.reply(env, Payload::EchoOk { echo: echoed }))
            },
            Payload::Generate => {
                let id = generate_unique_id();
                Some(self.reply(env, Payload::GenerateOk { id }))
            },
            Payload::Broadcast { message } => {
                store.record(*message);
                Some(self.reply(env, Payload::BroadcastOk))
            },
            Payload::Read => {
                let messages = store.snapshot();
                Some(self.reply(env, Payload::ReadOk { messages }))
            },
            Payload::Topology => Some(self.reply(env, Payload::TopologyOk)),
            _ => None,
        }
    }
}

} // verus!
