//! Client state: request numbering, the queue of outgoing messages and the
//! table of subscriptions keyed by the hash of their filter.
use vstd::prelude::*;
use std::collections::HashMap;
use crate::hashing::{char_code, next_hash, text_hash};
use crate::decimal::request_id;
use crate::decimal::dec;
use crate::message::{
    ConnectedResponse, EventResponse, MAX_REQUEST, SimpleSocketMessage, SubscribeMessage,
    json_bool, law_request_ids_distinct, law_subscribe_request_carries_filter,
};
use crate::subscription::{Subscription, SubscriptionHandle};
use crate::text::joined;

verus! {

broadcast use vstd::std_specs::hash::group_hash_axioms;

/// The state of a client: the number of the next request, the messages
/// waiting to be sent (oldest first), the subscriptions by hash and the
/// secure id the server gave on connecting. `C` is what the application
/// calls for the events of a subscription.
pub struct Context<C> {
    outbox: Vec<String>,
    req_num: u32,
    subscriptions: HashMap<i64, Subscription<C>>,
    secure_id: Option<String>,
}

/// The hash of `text` under which the server files a subscription.
pub fn hash(text: &str) -> (r: i64)
    ensures
        r == text_hash(text@),
        i32::MIN <= r <= i32::MAX,
{
    let mut hash: i64 = 0;
    for c in it: text.chars()
        invariant
            it.seq() == text@,
            hash == text_hash(text@.take(it.index() as int)),
            i32::MIN <= hash <= i32::MAX,
    {
        proof {
            assert(text@.take(it.index() as int + 1).drop_last() =~= text@.take(it.index() as int));
        }
        let code = char_code(c);
        proof {
            assert(text@.take(it.index() as int + 1).last() == c);
        }
        hash = next_hash(hash, code);
    }
    proof {
        assert(text@.take(text@.len() as int) =~= text@);
    }
    hash
}

impl<C> Context<C> {
    /// The texts waiting to be sent, oldest first.
    pub closed spec fn pending(&self) -> Seq<Seq<char>> {
        self.outbox@.map_values(|s: String| s@)
    }

    /// The number the next request will carry.
    pub closed spec fn next_request(&self) -> nat {
        self.req_num as nat
    }

    /// The subscriptions, by the hash they are filed under.
    pub closed spec fn subscriptions(&self) -> Map<i64, Subscription<C>> {
        self.subscriptions@
    }

    /// The secure id given by the server, `<client_id>-<secure_id>`.
    pub closed spec fn secure_id(&self) -> Option<Seq<char>> {
        match self.secure_id {
            Some(s) => Some(s@),
            None => None,
        }
    }

    /// A client with no request sent, nothing to send and no subscription.
    pub fn new() -> (ctx: Self)
        ensures
            ctx.pending() == Seq::<Seq<char>>::empty(),
            ctx.next_request() == 0,
            ctx.subscriptions() == Map::<i64, Subscription<C>>::empty(),
            ctx.secure_id() is None,
    {
        let ctx = Context { outbox: Vec::new(), req_num: 0, subscriptions: HashMap::new(), secure_id: None };
        assert(ctx.pending() =~= Seq::<Seq<char>>::empty());
        ctx
    }

    /// The number the next request will carry.
    pub fn req_num(&self) -> (n: u32)
        ensures
            n as nat == self.next_request(),
    {
        self.req_num
    }

    /// Queues `thing` as the next request and returns its id; the request
    /// number goes up by one.
    pub fn send<M: SimpleSocketMessage>(&mut self, thing: M) -> (sent: u32)
        requires
            old(self).next_request() <= MAX_REQUEST,
        ensures
            sent as nat == thing.encoding(old(self).next_request()).0,
            final(self).pending() == old(self).pending().push(
                thing.encoding(old(self).next_request()).1,
            ),
            final(self).next_request() == old(self).next_request() + 1,
            final(self).subscriptions() == old(self).subscriptions(),
            final(self).secure_id() == old(self).secure_id(),
    {
        let (sent, message) = thing.to_shitty_json_array(self.req_num);
        let ghost before = self.outbox@;
        self.outbox.push(message);
        proof {
            assert(self.outbox@.map_values(|s: String| s@) =~= before.map_values(|s: String| s@).push(message@));
        }
        self.req_num = self.req_num + 1;
        sent
    }

    /// Hands out the queued texts, oldest first, and empties the queue.
    pub fn take_outbox(&mut self) -> (out: Vec<String>)
        ensures
            out@.map_values(|s: String| s@) == old(self).pending(),
            final(self).pending() == Seq::<Seq<char>>::empty(),
            final(self).next_request() == old(self).next_request(),
            final(self).subscriptions() == old(self).subscriptions(),
            final(self).secure_id() == old(self).secure_id(),
    {
        let mut out: Vec<String> = Vec::new();
        std::mem::swap(&mut out, &mut self.outbox);
        assert(self.outbox@.map_values(|s: String| s@) =~= Seq::<Seq<char>>::empty());
        out
    }

    /// What to call for an event: the callback of the subscription filed
    /// under the event's hash, if there is one.
    pub fn on_message(&self, message: &EventResponse) -> (r: Option<&C>)
        ensures
            match r {
                Some(c) => self.subscriptions().contains_key(message.hash) && *c
                    == self.subscriptions()[message.hash].callback,
                None => !self.subscriptions().contains_key(message.hash),
            },
    {
        match self.subscriptions.get(&message.hash) {
            Some(sub) => Some(&sub.callback),
            None => None,
        }
    }

    /// Subscribes to the events matching `filter` (its JSON text): sends a
    /// subscribe request and files `callback` under the hash of the filter
    /// text, replacing any subscription filed under the same hash.
    pub fn subscribe(&mut self, filter: String, callback: C) -> (handle: SubscriptionHandle)
        requires
            old(self).next_request() <= MAX_REQUEST,
        ensures
            handle.spec_hash() == text_hash(filter@),
            handle.spec_req_id() as nat == (SubscribeMessage { unknown_param: true, filter }).encoding(
                old(self).next_request(),
            ).0,
            final(self).pending() == old(self).pending().push(
                (SubscribeMessage { unknown_param: true, filter }).encoding(old(self).next_request()).1,
            ),
            final(self).next_request() == old(self).next_request() + 1,
            final(self).subscriptions() == old(self).subscriptions().insert(
                handle.spec_hash(),
                Subscription { hash: handle.spec_hash(), callback, filter },
            ),
            final(self).secure_id() == old(self).secure_id(),
    {
        let hash = hash(filter.as_str());
        self.subscribe_hashed(filter, hash, callback)
    }

    /// Subscribes as [`Context::subscribe`] does, filing the subscription
    /// under a hash the caller computed for the filter text.
    pub fn subscribe_hashed(&mut self, filter: String, hash: i64, callback: C) -> (handle:
        SubscriptionHandle)
        requires
            old(self).next_request() <= MAX_REQUEST,
        ensures
            handle.spec_hash() == hash,
            handle.spec_req_id() as nat == (SubscribeMessage { unknown_param: true, filter }).encoding(
                old(self).next_request(),
            ).0,
            final(self).pending() == old(self).pending().push(
                (SubscribeMessage { unknown_param: true, filter }).encoding(old(self).next_request()).1,
            ),
            final(self).next_request() == old(self).next_request() + 1,
            final(self).subscriptions() == old(self).subscriptions().insert(
                hash,
                Subscription { hash, callback, filter },
            ),
            final(self).secure_id() == old(self).secure_id(),
    {
        let req_id = self.send(SubscribeMessage { unknown_param: true, filter: filter.clone() });
        let sub = Subscription { filter, hash, callback };
        self.subscriptions.insert(hash, sub);
        SubscriptionHandle::new(hash, req_id)
    }

    /// Records the secure id of a connected response,
    /// `<client_id>-<secure_id>`.
    pub fn on_connected(&mut self, connected: &ConnectedResponse)
        ensures
            final(self).secure_id() == Some(connected.client_id@ + seq!['-'] + connected.secure_id@),
            final(self).pending() == old(self).pending(),
            final(self).next_request() == old(self).next_request(),
            final(self).subscriptions() == old(self).subscriptions(),
    {
        let mut id = joined(connected.client_id.as_str(), "-");
        id.append(connected.secure_id.as_str());
        proof {
            reveal_strlit("-");
        }
        self.secure_id = Some(id);
    }

    /// The secure id given by the server, once connected.
    pub fn secure_id_text(&self) -> (r: Option<&String>)
        ensures
            match r {
                Some(s) => self.secure_id() == Some(s@),
                None => self.secure_id() is None,
            },
    {
        match &self.secure_id {
            Some(s) => Some(s),
            None => None,
        }
    }
}

/// A subscription is found again by its filter: once `callback` is filed
/// for `filter`, an event carrying the hash of the filter text reaches that
/// callback, and the subscriptions under every other hash are as they were.
pub proof fn law_subscription_receives_its_events<C>(
    before: Context<C>,
    after: Context<C>,
    filter: String,
    callback: C,
    handle: SubscriptionHandle,
    other: i64,
)
    requires
        handle.spec_hash() == text_hash(filter@),
        after.subscriptions() == before.subscriptions().insert(
            handle.spec_hash(),
            Subscription { hash: handle.spec_hash(), callback, filter },
        ),
    ensures
        after.subscriptions().contains_key(handle.spec_hash()),
        after.subscriptions()[handle.spec_hash()].callback == callback,
        after.subscriptions()[handle.spec_hash()].filter == filter,
        other != text_hash(filter@) ==> after.subscriptions().contains_key(other)
            == before.subscriptions().contains_key(other),
        other != text_hash(filter@) && before.subscriptions().contains_key(other)
            ==> after.subscriptions()[other] == before.subscriptions()[other],
{
}

/// Subscribing twice with the same filter text leaves one subscription
/// under its hash, holding the later callback.
pub proof fn law_resubscribing_replaces<C>(
    start: Context<C>,
    middle: Context<C>,
    end: Context<C>,
    filter: String,
    first: C,
    second: C,
)
    requires
        middle.subscriptions() == start.subscriptions().insert(
            text_hash(filter@) as i64,
            Subscription { hash: text_hash(filter@) as i64, callback: first, filter },
        ),
        end.subscriptions() == middle.subscriptions().insert(
            text_hash(filter@) as i64,
            Subscription { hash: text_hash(filter@) as i64, callback: second, filter },
        ),
    ensures
        end.subscriptions() == start.subscriptions().insert(
            text_hash(filter@) as i64,
            Subscription { hash: text_hash(filter@) as i64, callback: second, filter },
        ),
        end.subscriptions()[text_hash(filter@) as i64].callback == second,
{
    assert(end.subscriptions() =~= start.subscriptions().insert(
        text_hash(filter@) as i64,
        Subscription { hash: text_hash(filter@) as i64, callback: second, filter },
    ));
}

/// Requests go out in the order they were made, and each carries the next
/// request number: two requests made one after the other are queued in
/// that order with consecutive numbers.
pub proof fn law_requests_queue_in_order<C, M1: SimpleSocketMessage, M2: SimpleSocketMessage>(
    c0: Context<C>,
    c1: Context<C>,
    c2: Context<C>,
    m1: M1,
    m2: M2,
)
    requires
        c1.pending() == c0.pending().push(m1.encoding(c0.next_request()).1),
        c1.next_request() == c0.next_request() + 1,
        c2.pending() == c1.pending().push(m2.encoding(c1.next_request()).1),
        c2.next_request() == c1.next_request() + 1,
    ensures
        c2.pending() == c0.pending() + seq![
            m1.encoding(c0.next_request()).1,
            m2.encoding(c0.next_request() + 1).1,
        ],
        c2.next_request() == c0.next_request() + 2,
{
    assert(c2.pending() =~= c0.pending() + seq![
        m1.encoding(c0.next_request()).1,
        m2.encoding(c0.next_request() + 1).1,
    ]);
}

/// Request numbers along a run of requests: each request carries the number
/// after the previous one.
proof fn lemma_numbers_along_run<C>(states: Seq<Context<C>>, n: int)
    requires
        0 <= n < states.len(),
        forall|i: int|
            0 <= i < states.len() - 1 ==> (#[trigger] states[i + 1]).next_request()
                == states[i].next_request() + 1,
    ensures
        states[n].next_request() == states[0].next_request() + n,
    decreases n,
{
    if n > 0 {
        lemma_numbers_along_run(states, n - 1);
        assert(states[(n - 1) + 1].next_request() == states[n - 1].next_request() + 1);
    }
}

/// A run of requests, each made on the state the previous one left (as
/// [`Context::send`] and [`Context::subscribe`] do, the request numbers
/// counting up by one): the i-th request carries the starting number plus
/// i, and the ids of all the requests in the run are pairwise different,
/// whatever their kinds.
pub proof fn law_requests_in_a_run_have_distinct_ids<C>(
    states: Seq<Context<C>>,
    codes: Seq<nat>,
    ids: Seq<nat>,
)
    requires
        states.len() == codes.len() + 1,
        ids.len() == codes.len(),
        forall|i: int|
            0 <= i < codes.len() ==> (#[trigger] states[i + 1]).next_request()
                == states[i].next_request() + 1,
        forall|i: int| 0 <= i < codes.len() ==> 1 <= #[trigger] codes[i] <= 9,
        forall|i: int|
            0 <= i < codes.len() ==> #[trigger] ids[i] == request_id(
                codes[i],
                states[i].next_request(),
            ),
    ensures
        forall|i: int|
            0 <= i < states.len() ==> #[trigger] states[i].next_request()
                == states[0].next_request() + i,
        forall|i: int, j: int| 0 <= i < j < ids.len() ==> ids[i] != ids[j],
{
    assert forall|i: int| 0 <= i < states.len() implies #[trigger] states[i].next_request()
        == states[0].next_request() + i by {
        lemma_numbers_along_run(states, i);
    }
    assert forall|i: int, j: int| 0 <= i < j < ids.len() implies ids[i] != ids[j] by {
        lemma_numbers_along_run(states, i);
        lemma_numbers_along_run(states, j);
        assert(1 <= codes[i] <= 9 && 1 <= codes[j] <= 9);
        law_request_ids_distinct(
            codes[i],
            states[i].next_request(),
            codes[j],
            states[j].next_request(),
        );
    }
}

/// One change of state that leaves the subscription under `h` alone: the
/// table is unchanged (sending, editing, draining the queue, connecting,
/// decoding a frame) or gains a subscription under another hash.
pub open spec fn keeps_subscription<C>(before: Context<C>, after: Context<C>, h: i64) -> bool {
    ||| after.subscriptions() == before.subscriptions()
    ||| exists|h2: i64, sub: Subscription<C>|
        h2 != h && after.subscriptions() == #[trigger] before.subscriptions().insert(h2, sub)
}

proof fn lemma_entry_along_run<C>(states: Seq<Context<C>>, h: i64, n: int)
    requires
        0 <= n < states.len(),
        states[0].subscriptions().contains_key(h),
        forall|i: int|
            0 <= i < states.len() - 1 ==> keeps_subscription(states[i], #[trigger] states[i + 1], h),
    ensures
        states[n].subscriptions().contains_key(h),
        states[n].subscriptions()[h] == states[0].subscriptions()[h],
    decreases n,
{
    if n > 0 {
        lemma_entry_along_run(states, h, n - 1);
        assert(keeps_subscription(states[n - 1], states[(n - 1) + 1], h));
        if states[n].subscriptions() != states[n - 1].subscriptions() {
            let (h2, sub) = choose|h2: i64, sub: Subscription<C>|
                h2 != h && states[n].subscriptions() == #[trigger] states[n - 1].subscriptions().insert(
                    h2,
                    sub,
                );
            assert(states[n].subscriptions()[h] == states[n - 1].subscriptions()[h]);
        }
    }
}

/// A subscription keeps receiving its events through any later run of
/// changes that files nothing else under its hash: at the end of the run
/// the same subscription (and so the same callback) is filed under it.
pub proof fn law_subscription_survives_later_changes<C>(states: Seq<Context<C>>, h: i64)
    requires
        states.len() >= 1,
        states[0].subscriptions().contains_key(h),
        forall|i: int|
            0 <= i < states.len() - 1 ==> keeps_subscription(states[i], #[trigger] states[i + 1], h),
    ensures
        states.last().subscriptions().contains_key(h),
        states.last().subscriptions()[h] == states[0].subscriptions()[h],
{
    lemma_entry_along_run(states, h, states.len() - 1);
}


/// A subscription is announced with the very filter it is filed under: the
/// request that [`Context::subscribe`] queues, with its id and comma cut
/// from the front and its comma and flag from the back, is the filter text
/// of the subscription filed under the handle's hash.
pub proof fn law_subscribe_queues_the_filed_filter<C>(
    before: Context<C>,
    after: Context<C>,
    filter: String,
    callback: C,
    hash: i64,
)
    requires
        after.pending() == before.pending().push(
            (SubscribeMessage { unknown_param: true, filter }).encoding(before.next_request()).1,
        ),
        after.subscriptions() == before.subscriptions().insert(
            hash,
            Subscription { hash, callback, filter },
        ),
    ensures
        ({
            let text = after.pending().last();
            let head = dec(request_id(2, before.next_request())).len() + 1;
            let tail = json_bool(true).len() + 1;
            &&& after.subscriptions().contains_key(hash)
            &&& text.len() == head + after.subscriptions()[hash].filter@.len() + tail
            &&& text.subrange(head as int, text.len() - tail) == after.subscriptions()[hash].filter@
        }),
{
    law_subscribe_request_carries_filter(filter, true, before.next_request());
}

} // verus!
