//! Subscriptions and the handles that the client keeps for them.
use vstd::prelude::*;
use crate::context::Context;
use crate::message::{EditMessage, MAX_REQUEST, SimpleSocketMessage};

verus! {

/// A subscription filed under the hash of its filter text.
#[derive(Debug, Clone, PartialEq, Eq)]
pub struct Subscription<C> {
    pub hash: i64,
    pub callback: C,
    pub filter: String,
}

/// What the client keeps of a subscription it made: the hash it is filed
/// under and the id of the request that made it.
#[derive(Debug, Clone, Copy, PartialEq, Eq)]
pub struct SubscriptionHandle {
    pub(crate) hash: i64,
    pub(crate) req_id: u32,
}

impl SubscriptionHandle {
    /// The hash the subscription is filed under.
    pub closed spec fn spec_hash(&self) -> i64 {
        self.hash
    }

    /// The id of the request that made the subscription.
    pub closed spec fn spec_req_id(&self) -> u32 {
        self.req_id
    }

    pub(crate) fn new(hash: i64, req_id: u32) -> (h: SubscriptionHandle)
        ensures
            h.spec_hash() == hash,
            h.spec_req_id() == req_id,
    {
        SubscriptionHandle { hash, req_id }
    }

    /// The hash the subscription is filed under.
    pub fn hash(&self) -> (h: i64)
        ensures
            h == self.spec_hash(),
    {
        self.hash
    }

    /// The id of the request that made the subscription.
    pub fn req_id(&self) -> (id: u32)
        ensures
            id == self.spec_req_id(),
    {
        self.req_id
    }

    /// Sends a request that replaces the filter of this subscription. The
    /// subscription table of the client is left as it is.
    pub fn edit<C>(&self, ctx: &mut Context<C>, filter: String)
        requires
            old(ctx).next_request() <= MAX_REQUEST,
        ensures
            final(ctx).pending() == old(ctx).pending().push(
                (EditMessage { hash: self.spec_hash(), req_num: self.spec_req_id(), filter }).encoding(
                    old(ctx).next_request(),
                ).1,
            ),
            final(ctx).next_request() == old(ctx).next_request() + 1,
            final(ctx).subscriptions() == old(ctx).subscriptions(),
            final(ctx).secure_id() == old(ctx).secure_id(),
    {
        ctx.send(EditMessage { hash: self.hash, req_num: self.req_id, filter });
    }

    /// Drops the handle; no request is sent and the subscription stays.
    pub fn close(self) {
    }
}

} // verus!
