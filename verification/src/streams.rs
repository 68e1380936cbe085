//! Wallet subscriptions: a matcher keeps the lower-cased wallet address and
//! accepts exactly the events whose address equals it ignoring case; topics
//! follow the `wallet:<lower-address>` convention.

use vstd::prelude::*;

use crate::protocol::{event_address, Event};
use crate::text::str_eq;

verus! {

/// The lower-cased form of a string, as `str::to_lowercase` computes it.
pub uninterp spec fn lower_of(s: Seq<char>) -> Seq<char>;

/// Relies on `str::to_lowercase`: the result is a function of the
/// characters alone.
#[verifier::external_body]
fn lowercase(s: &str) -> (r: String)
    ensures
        r@ == lower_of(s@),
{
    s.to_lowercase()
}

/// A matcher for one wallet address.
#[derive(Debug)]
pub struct WalletStream {
    pub address_lower: String,
}

impl Clone for WalletStream {
    fn clone(&self) -> (r: Self)
        ensures
            r == *self,
    {
        WalletStream { address_lower: self.address_lower.clone() }
    }
}

/// Whether the matcher accepts an event.
pub open spec fn wallet_matches_spec(ws: WalletStream, e: Event) -> bool {
    lower_of(event_address(e)) == ws.address_lower@
}

impl WalletStream {
    pub fn new(address: String) -> (r: WalletStream)
        ensures
            r.address_lower@ == lower_of(address@),
    {
        WalletStream { address_lower: lowercase(address.as_str()) }
    }

    /// The publish topic this matcher listens on.
    pub fn topic(&self) -> (r: String)
        ensures
            r@ == "wallet:"@ + self.address_lower@,
    {
        let mut t = String::from_str("wallet:");
        t.append(self.address_lower.as_str());
        t
    }

    /// Address equality, ignoring case.
    pub fn matches(&self, event: &Event) -> (r: bool)
        ensures
            r == wallet_matches_spec(*self, *event),
    {
        let addr = match event {
            Event::WalletBookDiff { address, .. } => address,
            Event::WalletTrade { address, .. } => address,
            Event::WalletOrderStatus { address, .. } => address,
            Event::WalletFill { address, .. } => address,
            Event::WalletTwapStatus { address, .. } => address,
            Event::WalletMiscEvent { address, .. } => address,
            Event::WalletSystemAction { address, .. } => address,
        };
        lowercase(addr.as_str()) == self.address_lower
    }
}

/// A subscription made for `address` accepts exactly the events whose
/// address equals it up to case.
pub proof fn lemma_wallet_match(ws: WalletStream, address: Seq<char>, e: Event)
    requires
        ws.address_lower@ == lower_of(address),
    ensures
        wallet_matches_spec(ws, e) <==> lower_of(event_address(e)) == lower_of(address),
{
}

/// One live subscription: its id, publish topic, and matcher.
#[derive(Debug)]
pub struct Subscription {
    pub id: String,
    pub topic: String,
    pub kind: SubscriptionKind,
}

#[derive(Debug)]
pub enum SubscriptionKind {
    Wallet(WalletStream),
}

impl Clone for SubscriptionKind {
    fn clone(&self) -> (r: Self)
        ensures
            r == *self,
    {
        match self {
            SubscriptionKind::Wallet(ws) => SubscriptionKind::Wallet(ws.clone()),
        }
    }
}

impl Clone for Subscription {
    fn clone(&self) -> (r: Self)
        ensures
            r == *self,
    {
        Subscription { id: self.id.clone(), topic: self.topic.clone(), kind: self.kind.clone() }
    }
}

/// Whether a subscription accepts an event.
pub open spec fn sub_matches_spec(s: Subscription, e: Event) -> bool {
    match s.kind {
        SubscriptionKind::Wallet(ws) => wallet_matches_spec(ws, e),
    }
}

impl Subscription {
    pub fn matches(&self, event: &Event) -> (r: bool)
        ensures
            r == sub_matches_spec(*self, *event),
    {
        match &self.kind {
            SubscriptionKind::Wallet(s) => s.matches(event),
        }
    }
}

/// First position of the subscription with this id, if any.
pub open spec fn sub_index(subs: Seq<Subscription>, id: Seq<char>) -> Option<int>
    decreases subs.len(),
{
    if subs.len() == 0 {
        None
    } else if subs[0].id@ == id {
        Some(0int)
    } else {
        match sub_index(subs.drop_first(), id) {
            Some(i) => Some(i + 1),
            None => None,
        }
    }
}

pub proof fn lemma_sub_index_props(subs: Seq<Subscription>, id: Seq<char>)
    ensures
        match sub_index(subs, id) {
            None => forall|k: int| 0 <= k < subs.len() ==> (#[trigger] subs[k]).id@ != id,
            Some(i) => 0 <= i < subs.len() && subs[i].id@ == id && forall|k: int|
                0 <= k < i ==> (#[trigger] subs[k]).id@ != id,
        },
    decreases subs.len(),
{
    if subs.len() > 0 && subs[0].id@ != id {
        lemma_sub_index_props(subs.drop_first(), id);
        assert(forall|k: int|
            1 <= k < subs.len() ==> #[trigger] subs[k] == subs.drop_first()[k - 1]);
    }
}

/// Each subscription id occurs at most once.
pub open spec fn ids_unique(subs: Seq<Subscription>) -> bool {
    forall|i: int, j: int|
        0 <= i < j < subs.len() ==> (#[trigger] subs[i]).id@ != (#[trigger] subs[j]).id@
}

/// Removing the sole subscription carrying `id` from a duplicate-free list
/// makes the search fail.
pub proof fn lemma_sub_index_remove_self(subs: Seq<Subscription>, k: int, id: Seq<char>)
    requires
        ids_unique(subs),
        0 <= k < subs.len(),
        subs[k].id@ == id,
    ensures
        sub_index(subs.remove(k), id) is None,
{
    let subs2 = subs.remove(k);
    lemma_sub_index_props(subs2, id);
    match sub_index(subs2, id) {
        Some(j) => {
            if j < k {
                assert(subs2[j] == subs[j]);
            } else {
                assert(subs2[j] == subs[j + 1]);
            }
        },
        None => {},
    }
}

/// The shape of a wallet subscription registered for `address` under `id`.
pub open spec fn wallet_sub_ok(sub: Subscription, id: Seq<char>, address: Seq<char>) -> bool {
    &&& sub.id@ == id
    &&& sub.topic@ == "wallet:"@ + lower_of(address)
    &&& sub.kind matches SubscriptionKind::Wallet(ws) && ws.address_lower@ == lower_of(address)
}

/// The topics of the subscriptions that accept `e`, in registration order.
pub open spec fn topics_matching(subs: Seq<Subscription>, e: Event) -> Seq<Seq<char>>
    decreases subs.len(),
{
    if subs.len() == 0 {
        Seq::<Seq<char>>::empty()
    } else {
        let rest = topics_matching(subs.drop_first(), e);
        if sub_matches_spec(subs[0], e) {
            seq![subs[0].topic@] + rest
        } else {
            rest
        }
    }
}

pub proof fn lemma_topics_snoc(subs: Seq<Subscription>, x: Subscription, e: Event)
    ensures
        topics_matching(subs.push(x), e) == (if sub_matches_spec(x, e) {
            topics_matching(subs, e).push(x.topic@)
        } else {
            topics_matching(subs, e)
        }),
    decreases subs.len(),
{
    if subs.len() == 0 {
        assert(subs.push(x)[0] == x);
        assert(subs.push(x).drop_first() =~= Seq::<Subscription>::empty());
        assert(topics_matching(Seq::<Subscription>::empty(), e) =~= Seq::<Seq<char>>::empty());
        if sub_matches_spec(x, e) {
            assert(seq![x.topic@] + Seq::<Seq<char>>::empty() =~= topics_matching(
                subs,
                e,
            ).push(x.topic@));
        }
    } else {
        assert(subs.push(x)[0] == subs[0]);
        assert(subs.push(x).drop_first() =~= subs.drop_first().push(x));
        lemma_topics_snoc(subs.drop_first(), x, e);
        if sub_matches_spec(subs[0], e) {
            if sub_matches_spec(x, e) {
                assert(seq![subs[0].topic@] + topics_matching(subs.drop_first(), e).push(
                    x.topic@,
                ) =~= (seq![subs[0].topic@] + topics_matching(subs.drop_first(), e)).push(
                    x.topic@,
                ));
            }
        }
    }
}

/// The live subscriptions, in registration order.
#[derive(Debug)]
pub struct StreamManager {
    pub subscriptions: Vec<Subscription>,
}

impl StreamManager {
    /// No two subscriptions share an id, so an id names at most one.
    pub open spec fn inv(self) -> bool {
        ids_unique(self.subscriptions@)
    }

    pub fn new() -> (r: StreamManager)
        ensures
            r.subscriptions@.len() == 0,
            r.inv(),
    {
        StreamManager { subscriptions: Vec::new() }
    }

    /// Register a wallet subscription and hand the caller its copy. An id
    /// collision replaces the older subscription, keying the registry by id.
    #[verifier::loop_isolation(false)]
    pub fn subscribe_wallet(&mut self, address: String) -> (r: Subscription)
        requires
            old(self).inv(),
        ensures
            final(self).inv(),
            r.id@.len() == 36,
            r.topic@ == "wallet:"@ + lower_of(address@),
            r.kind matches SubscriptionKind::Wallet(ws) && ws.address_lower@ == lower_of(
                address@,
            ),
            match sub_index(old(self).subscriptions@, r.id@) {
                None => final(self).subscriptions@ =~= old(self).subscriptions@.push(r),
                Some(i) => final(self).subscriptions@ =~= old(self).subscriptions@.update(
                    i,
                    r,
                ),
            },
    {
        let stream = WalletStream::new(address);
        let topic = stream.topic();
        let id = crate::protocol::fresh_id();
        let sub = Subscription { id, topic, kind: SubscriptionKind::Wallet(stream) };
        let copy = sub.clone();
        let ghost sid = sub.id@;
        let ghost prev = self.subscriptions@;
        proof {
            lemma_sub_index_props(prev, sid);
        }
        let n = self.subscriptions.len();
        let mut i: usize = 0;
        while i < n
            invariant
                0 <= i <= n,
                n == self.subscriptions@.len(),
                self.subscriptions == old(self).subscriptions,
                forall|k: int| 0 <= k < i ==> (#[trigger] self.subscriptions@[k]).id@ != sid,
            decreases n - i,
        {
            if str_eq(self.subscriptions[i].id.as_str(), sub.id.as_str()) {
                proof {
                    assert(self.subscriptions@[i as int].id@ == sid);
                }
                self.subscriptions.remove(i);
                self.subscriptions.insert(i, sub);
                proof {
                    assert(self.subscriptions@ =~= prev.update(i as int, copy));
                    assert forall|x: int, y: int|
                        0 <= x < y < self.subscriptions@.len() implies (
                    #[trigger] self.subscriptions@[x]).id@ != (
                    #[trigger] self.subscriptions@[y]).id@ by {
                        assert(prev[x].id@ != prev[y].id@);
                        if x != i {
                            assert(self.subscriptions@[x] == prev[x]);
                        }
                        if y != i {
                            assert(self.subscriptions@[y] == prev[y]);
                        }
                    }
                }
                return copy;
            }
            i = i + 1;
        }
        self.subscriptions.push(sub);
        proof {
            assert(self.subscriptions@ =~= prev.push(copy));
            assert forall|x: int, y: int|
                0 <= x < y < self.subscriptions@.len() implies (
            #[trigger] self.subscriptions@[x]).id@ != (
            #[trigger] self.subscriptions@[y]).id@ by {
                if y < prev.len() {
                    assert(prev[x].id@ != prev[y].id@);
                } else {
                    assert(self.subscriptions@[x] == prev[x]);
                    assert(self.subscriptions@[y] == copy);
                }
            }
        }
        copy
    }

    /// Drop the subscription with this id; reports whether one existed.
    /// Afterwards the id names nothing, so a repeated call reports false.
    #[verifier::loop_isolation(false)]
    pub fn unsubscribe(&mut self, id: &str) -> (r: bool)
        requires
            old(self).inv(),
        ensures
            final(self).inv(),
            match sub_index(old(self).subscriptions@, id@) {
                None => !r && final(self).subscriptions@ == old(self).subscriptions@,
                Some(i) => r && final(self).subscriptions@ =~= old(
                    self,
                ).subscriptions@.remove(i) && sub_index(final(self).subscriptions@, id@)
                    is None,
            },
    {
        let ghost prev = self.subscriptions@;
        proof {
            lemma_sub_index_props(prev, id@);
        }
        let n = self.subscriptions.len();
        let mut i: usize = 0;
        while i < n
            invariant
                0 <= i <= n,
                n == self.subscriptions@.len(),
                self.subscriptions == old(self).subscriptions,
                forall|k: int|
                    0 <= k < i ==> (#[trigger] self.subscriptions@[k]).id@ != id@,
            decreases n - i,
        {
            if str_eq(self.subscriptions[i].id.as_str(), id) {
                proof {
                    assert(prev[i as int].id@ == id@);
                    lemma_sub_index_remove_self(prev, i as int, id@);
                }
                self.subscriptions.remove(i);
                proof {
                    assert(self.subscriptions@ =~= prev.remove(i as int));
                    assert forall|x: int, y: int|
                        0 <= x < y < self.subscriptions@.len() implies (
                    #[trigger] self.subscriptions@[x]).id@ != (
                    #[trigger] self.subscriptions@[y]).id@ by {
                        let xo = if x < i { x } else { x + 1 };
                        let yo = if y < i { y } else { y + 1 };
                        assert(self.subscriptions@[x] == prev[xo]);
                        assert(self.subscriptions@[y] == prev[yo]);
                        assert(prev[xo].id@ != prev[yo].id@);
                    }
                }
                return true;
            }
            i = i + 1;
        }
        false
    }

    /// The topics of every subscription that accepts `event`.
    #[verifier::loop_isolation(false)]
    pub fn matching_topics(&self, event: &Event) -> (r: Vec<String>)
        ensures
            r.deep_view() == topics_matching(self.subscriptions@, *event),
    {
        let n = self.subscriptions.len();
        let mut out: Vec<String> = Vec::new();
        let mut i: usize = 0;
        while i < n
            invariant
                0 <= i <= n,
                n == self.subscriptions@.len(),
                out.deep_view() =~= topics_matching(self.subscriptions@.take(i as int), *event),
            decreases n - i,
        {
            proof {
                assert(self.subscriptions@.take(i + 1) =~= self.subscriptions@.take(
                    i as int,
                ).push(self.subscriptions@[i as int]));
                lemma_topics_snoc(
                    self.subscriptions@.take(i as int),
                    self.subscriptions@[i as int],
                    *event,
                );
            }
            if self.subscriptions[i].matches(event) {
                out.push(self.subscriptions[i].topic.clone());
            }
            i = i + 1;
        }
        proof {
            assert(self.subscriptions@.take(n as int) =~= self.subscriptions@);
        }
        out
    }
}

} // verus!
