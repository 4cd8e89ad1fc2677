//! The dynamic graph: providers registered per node kind and capability,
//! every query routed to the provider of the node's kind, and every
//! successful mutation announced to the change subscribers.
use std::sync::mpsc::{Receiver, Sender};

use vstd::prelude::*;

use crate::change::{ChangeModel, GraphChange};
use crate::error::{is_not_found, is_unsupported, GraphError, Result};
use crate::identity::{node_id_text, NodeId, NodeIdView, NodeKind, PropertyKey, RelationName};
use crate::projection::{
    lemma_map_keys_sorted, lemma_sorted_keys_exist, node_views, nodes_sorted, sort_nodes, sorted_keys_of,
    strictly_sorted,
};
use crate::provider::{NodeMutationProvider, NodeProvider, PropertyMutationProvider, PropertyProvider, RelationMutationProvider, RelationProvider};
use crate::text::concat3;
use crate::text_map::{lemma_entries_map_at, sorted_by_key, TextMap};
use crate::value::{LocusValue, PropertySpec};

verus! {

#[verifier::external_type_specification]
#[verifier::external_body]
#[verifier::reject_recursive_types(T)]
pub struct ExChangeSender<T>(Sender<T>);

#[verifier::external_type_specification]
#[verifier::external_body]
#[verifier::reject_recursive_types(T)]
pub struct ExChangeReceiver<T>(Receiver<T>);

/// The channel a sending end belongs to.
pub uninterp spec fn sender_channel(s: Sender<GraphChange>) -> int;

/// The channel a receiving end belongs to.
pub uninterp spec fn receiver_channel(r: Receiver<GraphChange>) -> int;

/// The changes a sending end has put into its channel so far.
pub uninterp spec fn sent_through(s: Sender<GraphChange>) -> Seq<ChangeModel>;

/// The changes a sending end has been handed to send so far, whether or
/// not they got into its channel.
pub uninterp spec fn offered_to(s: Sender<GraphChange>) -> Seq<ChangeModel>;

/// Opens a channel of graph changes (`std::sync::mpsc::channel`): its two
/// ends belong to one channel, and nothing has been handed to it or sent
/// through it yet.
#[verifier::external_body]
fn open_change_channel() -> (r: (Sender<GraphChange>, Receiver<GraphChange>))
    ensures
        sender_channel(r.0) == receiver_channel(r.1),
        sent_through(r.0) == Seq::<ChangeModel>::empty(),
        offered_to(r.0) == Seq::<ChangeModel>::empty(),
{
    std::sync::mpsc::channel()
}

/// Sends a change through a sending end (`Sender::send`). The end stays on
/// its channel and has been handed the change; a send that succeeds puts
/// the change into the channel, one that fails (the receiving end is gone)
/// puts nothing there. Which of the two happens depends on the receiving
/// end, so the result is not stated.
#[verifier::external_body]
fn send_change(sender: &mut Sender<GraphChange>, change: GraphChange) -> (r: bool)
    ensures
        sender_channel(*final(sender)) == sender_channel(*old(sender)),
        offered_to(*final(sender)) == offered_to(*old(sender)).push(change@),
        r ==> sent_through(*final(sender)) == sent_through(*old(sender)).push(change@),
        !r ==> sent_through(*final(sender)) == sent_through(*old(sender)),
{
    sender.send(change).is_ok()
}

/// Sending end `after[i]` is `before[i]` once the change was handed to it:
/// on the same channel, handed the change, and having carried it where
/// `delivered[i]` says the send succeeded, nothing more where it failed.
pub open spec fn handed_to_all(
    before: Seq<Sender<GraphChange>>,
    after: Seq<Sender<GraphChange>>,
    change: ChangeModel,
    delivered: Seq<bool>,
) -> bool {
    &&& after.len() == before.len()
    &&& delivered.len() == before.len()
    &&& forall|i: int|
        0 <= i < before.len() ==> sender_channel(#[trigger] after[i]) == sender_channel(before[i])
            && offered_to(after[i]) == offered_to(before[i]).push(change)
            && sent_through(after[i]) == if delivered[i] {
            sent_through(before[i]).push(change)
        } else {
            sent_through(before[i])
        }
}

/// The error for a query whose node kind has no provider of a capability.
pub open spec fn missing_provider(e: GraphError, capability: Seq<char>, kind: Seq<char>) -> bool {
    is_not_found(e, "provider"@, capability + " provider for "@ + kind)
}

/// The kinds of a map of providers are its sorted key texts, and its
/// entries hold the provider of each kind in that order.
proof fn lemma_providers_follow_kinds<V>(m: TextMap<NodeKind, V>)
    requires
        sorted_by_key(m.entries()),
    ensures
        m.keys() == sorted_keys_of(m.map().dom()),
        m.map().dom().finite(),
        m.entries().map_values(|e: (NodeKind, V)| e.1).len() == m.keys().len(),
        forall|i: int|
            0 <= i < m.keys().len() ==> m.entries().map_values(|e: (NodeKind, V)| e.1)[i]
                == m.map()[#[trigger] m.keys()[i]],
{
    lemma_map_keys_sorted(m);
    vstd::seq_lib::seq_to_set_is_finite(m.keys());
    assert forall|i: int| 0 <= i < m.keys().len() implies m.entries().map_values(
        |e: (NodeKind, V)| e.1,
    )[i] == m.map()[#[trigger] m.keys()[i]] by {
        lemma_entries_map_at(m.entries(), i);
    }
}

/// What stays of the subscribers (or of what is kept of each) after an
/// announcement: the entries of those the change was delivered to, in
/// their order.
pub open spec fn kept_subscribers<T>(subscribers: Seq<T>, delivered: Seq<bool>) -> Seq<T>
    decreases subscribers.len(),
{
    if subscribers.len() == 0 {
        Seq::empty()
    } else {
        let prev = kept_subscribers(subscribers.drop_last(), delivered);
        if delivered[subscribers.len() - 1] {
            prev.push(subscribers.last())
        } else {
            prev
        }
    }
}

proof fn lemma_kept_len(subscribers: Seq<Sender<GraphChange>>, delivered: Seq<bool>)
    ensures
        kept_subscribers(subscribers, delivered).len() <= subscribers.len(),
    decreases subscribers.len(),
{
    if subscribers.len() > 0 {
        lemma_kept_len(subscribers.drop_last(), delivered);
    }
}

/// Every subscriber kept after an announcement is one of the subscribers
/// before it, on the same channel, whose channel has received the change
/// after everything it had received before.
pub proof fn lemma_kept_subscribers_received(
    before: Seq<Sender<GraphChange>>,
    after: Seq<Sender<GraphChange>>,
    change: ChangeModel,
    delivered: Seq<bool>,
    j: int,
)
    requires
        handed_to_all(before, after, change, delivered),
        0 <= j < kept_subscribers(after, delivered).len(),
    ensures
        exists|i: int|
            0 <= i < before.len() && sender_channel(#[trigger] kept_subscribers(after, delivered)[j])
                == sender_channel(before[i]) && sent_through(kept_subscribers(after, delivered)[j])
                == sent_through(before[i]).push(change),
    decreases after.len(),
{
    let prev = kept_subscribers(after.drop_last(), delivered);
    let n = after.len() - 1;
    assert(handed_to_all(before.take(n), after.drop_last(), change, delivered.take(n))) by {
        assert forall|i: int| 0 <= i < n implies sender_channel(#[trigger] after.drop_last()[i])
            == sender_channel(before.take(n)[i]) && sent_through(after.drop_last()[i]) == if delivered.take(n)[i] {
            sent_through(before.take(n)[i]).push(change)
        } else {
            sent_through(before.take(n)[i])
        } by {
            assert(after.drop_last()[i] == after[i]);
        }
    }
    lemma_kept_prefix(after.drop_last(), delivered, delivered.take(n));
    if j < prev.len() {
        lemma_kept_subscribers_received(before.take(n), after.drop_last(), change, delivered.take(n), j);
        let i = choose|i: int|
            0 <= i < before.take(n).len() && sender_channel(#[trigger] kept_subscribers(after.drop_last(), delivered.take(n))[j])
                == sender_channel(before.take(n)[i]) && sent_through(kept_subscribers(after.drop_last(), delivered.take(n))[j])
                == sent_through(before.take(n)[i]).push(change);
        assert(kept_subscribers(after, delivered)[j] == prev[j]);
        assert(before.take(n)[i] == before[i]);
    } else {
        assert(delivered[n]);
        assert(kept_subscribers(after, delivered)[j] == after[n]);
    }
}

/// Which senders are kept depends only on the outcomes of their sends.
proof fn lemma_kept_prefix<T>(after: Seq<T>, d1: Seq<bool>, d2: Seq<bool>)
    requires
        d1.len() >= after.len(),
        d2.len() >= after.len(),
        forall|i: int| 0 <= i < after.len() ==> d1[i] == d2[i],
    ensures
        kept_subscribers(after, d1) == kept_subscribers(after, d2),
    decreases after.len(),
{
    if after.len() > 0 {
        lemma_kept_prefix(after.drop_last(), d1, d2);
    }
}

/// Two runs of the same length keep entries at the same places: each kept
/// pair comes from one place whose send went through.
proof fn lemma_kept_parallel<A, B>(a: Seq<A>, b: Seq<B>, delivered: Seq<bool>)
    requires
        a.len() == b.len(),
        delivered.len() >= a.len(),
    ensures
        kept_subscribers(a, delivered).len() == kept_subscribers(b, delivered).len(),
        forall|j: int|
            #![trigger kept_subscribers(a, delivered)[j]]
            0 <= j < kept_subscribers(a, delivered).len() ==> exists|i: int|
                #![trigger a[i], b[i]]
                0 <= i < a.len() && delivered[i] && kept_subscribers(a, delivered)[j] == a[i]
                    && kept_subscribers(b, delivered)[j] == b[i],
    decreases a.len(),
{
    if a.len() > 0 {
        let n = a.len() - 1;
        lemma_kept_parallel(a.drop_last(), b.drop_last(), delivered);
        let ka = kept_subscribers(a, delivered);
        let kb = kept_subscribers(b, delivered);
        let pa = kept_subscribers(a.drop_last(), delivered);
        let pb = kept_subscribers(b.drop_last(), delivered);
        if delivered[n] {
            assert(ka == pa.push(a[n]));
            assert(kb == pb.push(b[n]));
        } else {
            assert(ka == pa);
            assert(kb == pb);
        }
        assert(ka.len() == kb.len());
        assert forall|j: int| #![trigger ka[j]] 0 <= j < ka.len() implies exists|i: int|
            #![trigger a[i], b[i]]
            0 <= i < a.len() && delivered[i] && ka[j] == a[i] && kb[j] == b[i] by {
            if j < pa.len() {
                assert(0 <= j < pa.len());
                assert(pa[j] == kept_subscribers(a.drop_last(), delivered)[j]);
                assert(exists|i: int|
                    #![trigger a.drop_last()[i], b.drop_last()[i]]
                    0 <= i < a.drop_last().len() && delivered[i] && pa[j] == a.drop_last()[i]
                        && pb[j] == b.drop_last()[i]);
                let i = choose|i: int|
                    #![trigger a.drop_last()[i], b.drop_last()[i]]
                    0 <= i < a.drop_last().len() && delivered[i] && pa[j] == a.drop_last()[i]
                        && pb[j] == b.drop_last()[i];
                assert(ka[j] == pa[j] && kb[j] == pb[j]);
                assert(a.drop_last()[i] == a[i] && b.drop_last()[i] == b[i]);
                assert(0 <= i < a.len() && delivered[i] && ka[j] == a[i] && kb[j] == b[i]);
            } else {
                assert(delivered[n]);
                assert(ka[j] == a[n] && kb[j] == b[n]);
            }
        }
    } else {
        assert(kept_subscribers(a, delivered) =~= Seq::<A>::empty());
        assert(kept_subscribers(b, delivered) =~= Seq::<B>::empty());
    }
}

/// Keeps the senders whose send went through, in their order.
fn keep_delivered(senders: Vec<Sender<GraphChange>>, delivered: Vec<bool>) -> (r: Vec<Sender<GraphChange>>)
    requires
        senders@.len() == delivered@.len(),
    ensures
        r@ == kept_subscribers(senders@, delivered@),
{
    let ghost all = senders@;
    let mut rest = senders;
    let mut kept: Vec<Sender<GraphChange>> = Vec::new();
    let mut i: usize = 0;
    let n = rest.len();
    assert(all.take(0) =~= Seq::<Sender<GraphChange>>::empty());
    while rest.len() > 0
        invariant
            n == all.len(),
            n == delivered@.len(),
            i + rest@.len() == n,
            rest@ == all.skip(i as int),
            kept@ == kept_subscribers(all.take(i as int), delivered@),
        decreases rest@.len(),
    {
        let sender = rest.remove(0);
        assert(sender == all[i as int]);
        assert(all.take(i + 1).drop_last() =~= all.take(i as int));
        assert(all.take(i + 1).last() == all[i as int]);
        if delivered[i] {
            kept.push(sender);
        }
        assert(rest@ =~= all.skip(i + 1));
        i += 1;
    }
    assert(all.take(n as int) =~= all);
    kept
}

/// A graph assembled from providers, one per node kind and capability.
pub struct DynamicGraph<N, NM, P, PM, R, RM> {
    nodes: TextMap<NodeKind, N>,
    node_mutations: TextMap<NodeKind, NM>,
    properties: TextMap<NodeKind, P>,
    property_mutations: TextMap<NodeKind, PM>,
    relations: TextMap<NodeKind, R>,
    relation_mutations: TextMap<NodeKind, RM>,
    change_subscribers: Vec<Sender<GraphChange>>,
    emitted: Ghost<Seq<ChangeModel>>,
    subscribed: Ghost<Seq<int>>,
}

impl<N, NM, P, PM, R, RM> DynamicGraph<N, NM, P, PM, R, RM> {
    /// Node providers by kind.
    pub closed spec fn node_providers(&self) -> Map<Seq<char>, N> {
        self.nodes.map()
    }

    /// Node providers in kind order.
    pub closed spec fn node_provider_list(&self) -> Seq<N> {
        self.nodes.entries().map_values(|e: (NodeKind, N)| e.1)
    }

    /// The kinds with a node provider, in order.
    pub closed spec fn node_kind_list(&self) -> Seq<Seq<char>> {
        self.nodes.keys()
    }

    pub closed spec fn node_mutation_providers(&self) -> Map<Seq<char>, NM> {
        self.node_mutations.map()
    }

    pub closed spec fn property_providers(&self) -> Map<Seq<char>, P> {
        self.properties.map()
    }

    pub closed spec fn property_mutation_providers(&self) -> Map<Seq<char>, PM> {
        self.property_mutations.map()
    }

    pub closed spec fn relation_providers(&self) -> Map<Seq<char>, R> {
        self.relations.map()
    }

    pub closed spec fn relation_mutation_providers(&self) -> Map<Seq<char>, RM> {
        self.relation_mutations.map()
    }

    /// Every change handed to the subscribers so far, in order (whether a
    /// subscriber received it is up to its receiving end).
    pub closed spec fn emitted(&self) -> Seq<ChangeModel> {
        self.emitted@
    }

    /// How many subscribers are still listening.
    pub closed spec fn subscriber_count(&self) -> nat {
        self.change_subscribers@.len()
    }

    /// The sending ends of the subscribers, in the order they subscribed.
    pub closed spec fn subscribers(&self) -> Seq<Sender<GraphChange>> {
        self.change_subscribers@
    }

    /// For each subscriber, how many changes had been announced when it
    /// subscribed.
    pub closed spec fn subscribed_at(&self) -> Seq<int> {
        self.subscribed@
    }

    /// Every subscriber has received, once each and in the order they were
    /// announced, exactly the changes announced since it subscribed.
    pub open spec fn subscribers_current(&self) -> bool {
        &&& self.subscribed_at().len() == self.subscribers().len()
        &&& forall|i: int|
            0 <= i < self.subscribers().len() ==> 0 <= #[trigger] self.subscribed_at()[i]
                <= self.emitted().len() && sent_through(self.subscribers()[i]) == self.emitted().subrange(
                self.subscribed_at()[i],
                self.emitted().len() as int,
            )
    }

    /// The providers of node kinds follow the kinds: the kind list is the
    /// sorted kinds of the node providers, and the provider list holds the
    /// provider of each kind in that order.
    pub open spec fn kinds_follow_providers(&self) -> bool {
        &&& self.node_providers().dom().finite()
        &&& self.node_kind_list() == sorted_keys_of(self.node_providers().dom())
        &&& self.node_provider_list().len() == self.node_kind_list().len()
        &&& forall|i: int|
            0 <= i < self.node_kind_list().len() ==> #[trigger] self.node_provider_list()[i]
                == self.node_providers()[self.node_kind_list()[i]]
    }

    /// The kinds a graph lists increase, and they are exactly the kinds of
    /// its node providers: a kind whose provider was registered, once or
    /// more, is listed once, and no other kind is listed.
    pub proof fn lemma_kinds_listed_once(&self)
        requires
            self.kinds_follow_providers(),
        ensures
            strictly_sorted(self.node_kind_list()),
            self.node_kind_list().to_set() == self.node_providers().dom(),
    {
        lemma_sorted_keys_exist(self.node_providers().dom());
    }

    /// The providers, capability by capability.
    pub open spec fn same_providers(&self, other: &Self) -> bool {
        &&& self.node_providers() == other.node_providers()
        &&& self.node_provider_list() == other.node_provider_list()
        &&& self.node_kind_list() == other.node_kind_list()
        &&& self.node_mutation_providers() == other.node_mutation_providers()
        &&& self.property_providers() == other.property_providers()
        &&& self.property_mutation_providers() == other.property_mutation_providers()
        &&& self.relation_providers() == other.relation_providers()
        &&& self.relation_mutation_providers() == other.relation_mutation_providers()
    }

    /// A graph with no providers and no subscribers.
    pub fn new() -> (r: Self)
        ensures
            r.node_providers() == Map::<Seq<char>, N>::empty(),
            r.node_provider_list() == Seq::<N>::empty(),
            r.node_kind_list() == Seq::<Seq<char>>::empty(),
            r.node_mutation_providers() == Map::<Seq<char>, NM>::empty(),
            r.property_providers() == Map::<Seq<char>, P>::empty(),
            r.property_mutation_providers() == Map::<Seq<char>, PM>::empty(),
            r.relation_providers() == Map::<Seq<char>, R>::empty(),
            r.relation_mutation_providers() == Map::<Seq<char>, RM>::empty(),
            r.emitted() == Seq::<ChangeModel>::empty(),
            r.subscriber_count() == 0,
            r.subscribers_current(),
    {
        let r = DynamicGraph {
            nodes: TextMap::new(),
            node_mutations: TextMap::new(),
            properties: TextMap::new(),
            property_mutations: TextMap::new(),
            relations: TextMap::new(),
            relation_mutations: TextMap::new(),
            change_subscribers: Vec::new(),
            emitted: Ghost(Seq::empty()),
            subscribed: Ghost(Seq::empty()),
        };
        assert(r.node_provider_list() =~= Seq::<N>::empty());
        assert(r.node_kind_list() =~= Seq::<Seq<char>>::empty());
        r
    }

    /// Adds a subscriber and hands back its receiving end.
    pub fn subscribe_changes(&mut self) -> (r: Result<Receiver<GraphChange>>)
        ensures
            r matches Ok(rx) && {
                let subs = final(self).subscribers();
                &&& subs.len() == old(self).subscribers().len() + 1
                &&& subs.drop_last() == old(self).subscribers()
                &&& sender_channel(subs.last()) == receiver_channel(rx)
                &&& sent_through(subs.last()) == Seq::<ChangeModel>::empty()
                &&& offered_to(subs.last()) == Seq::<ChangeModel>::empty()
                &&& final(self).subscribed_at() == old(self).subscribed_at().push(
                    old(self).emitted().len() as int,
                )
            },
            final(self).subscriber_count() == old(self).subscriber_count() + 1,
            final(self).emitted() == old(self).emitted(),
            final(self).same_providers(&*old(self)),
            old(self).subscribers_current() ==> final(self).subscribers_current(),
    {
        let (sender, receiver) = open_change_channel();
        self.change_subscribers.push(sender);
        self.subscribed = Ghost(self.subscribed@.push(self.emitted@.len() as int));
        assert(self.subscribers().drop_last() =~= old(self).subscribers());
        proof {
            let e = self.emitted@;
            assert(e.subrange(e.len() as int, e.len() as int) =~= Seq::<ChangeModel>::empty());
            if old(self).subscribers_current() {
                assert forall|i: int| 0 <= i < old(self).subscribers().len() implies self.subscribers()[i]
                    == old(self).subscribers()[i] && self.subscribed_at()[i] == old(
                    self,
                ).subscribed_at()[i] by {
                    assert(self.subscribers().drop_last()[i] == self.subscribers()[i]);
                }
            }
        }
        Ok(receiver)
    }

    /// What a receiving end has been sent, while its subscriber is still
    /// listening, is exactly the changes announced since it subscribed,
    /// once each and in the order they were announced. (A new graph keeps
    /// its subscribers current and every operation keeps them so; a new
    /// subscriber starts at the changes announced so far, on the channel
    /// of the receiving end it is handed.)
    pub proof fn lemma_receiver_gets_later_changes(&self, rx: Receiver<GraphChange>, i: int)
        requires
            self.subscribers_current(),
            0 <= i < self.subscribers().len(),
            sender_channel(self.subscribers()[i]) == receiver_channel(rx),
        ensures
            sent_through(self.subscribers()[i]) == self.emitted().subrange(
                self.subscribed_at()[i],
                self.emitted().len() as int,
            ),
    {
        assert(0 <= self.subscribed_at()[i] <= self.emitted().len());
    }

    /// Announces a change to every subscriber: hands it to the sending end
    /// of each, then keeps exactly the subscribers whose send succeeded, in
    /// their order.
    pub fn emit_change(&mut self, change: GraphChange) -> (r: Result<()>)
        ensures
            r is Ok,
            final(self).emitted() == old(self).emitted().push(change@),
            exists|after: Seq<Sender<GraphChange>>, delivered: Seq<bool>|
                handed_to_all(old(self).subscribers(), after, change@, delivered)
                    && final(self).subscribers() == #[trigger] kept_subscribers(after, delivered),
            final(self).subscriber_count() <= old(self).subscriber_count(),
            final(self).same_providers(&*old(self)),
            old(self).subscribers_current() ==> final(self).subscribers_current(),
    {
        let ghost model = change@;
        let ghost start = self.emitted@;
        let ghost since = self.subscribed@;
        let ghost before = self.change_subscribers@;
        let mut pending: Vec<Sender<GraphChange>> = Vec::new();
        std::mem::swap(&mut pending, &mut self.change_subscribers);
        let mut handed: Vec<Sender<GraphChange>> = Vec::new();
        let mut delivered: Vec<bool> = Vec::new();
        let n = pending.len();
        let mut i: usize = 0;
        while pending.len() > 0
            invariant
                n == before.len(),
                i + pending@.len() == n,
                pending@ == before.skip(i as int),
                handed_to_all(before.take(i as int), handed@, model, delivered@),
                change@ == model,
            decreases pending@.len(),
        {
            let mut sender = pending.remove(0);
            assert(sender == before[i as int]);
            let ghost was = sender;
            let ok = send_change(&mut sender, change.duplicate());
            handed.push(sender);
            delivered.push(ok);
            assert(pending@ =~= before.skip(i + 1));
            assert(before.take(i + 1) =~= before.take(i as int).push(was));
            i += 1;
        }
        assert(before.take(n as int) =~= before);
        let ghost after = handed@;
        let ghost outcomes = delivered@;
        let kept = keep_delivered(handed, delivered);
        proof {
            lemma_kept_len(after, outcomes);
        }
        self.change_subscribers = kept;
        self.emitted = Ghost(self.emitted@.push(model));
        self.subscribed = Ghost(kept_subscribers(since, outcomes));
        proof {
            if old(self).subscribers_current() {
                lemma_kept_parallel(after, since, outcomes);
                let ks = self.subscribers();
                let ka = self.subscribed_at();
                let e = self.emitted@;
                assert forall|j: int| 0 <= j < ks.len() implies 0 <= #[trigger] ka[j] <= e.len()
                    && sent_through(ks[j]) == e.subrange(ka[j], e.len() as int) by {
                    assert(0 <= j < kept_subscribers(after, outcomes).len());
                    let i = choose|i: int|
                        #![trigger after[i], since[i]]
                        0 <= i < after.len() && outcomes[i] && kept_subscribers(after, outcomes)[j]
                            == after[i] && kept_subscribers(since, outcomes)[j] == since[i];
                    assert(old(self).subscribers()[i] == before[i]);
                    assert(sent_through(before[i]) == start.subrange(since[i], start.len() as int));
                    assert(e.subrange(since[i], e.len() as int) =~= start.subrange(
                        since[i],
                        start.len() as int,
                    ).push(model));
                }
            }
        }
        Ok(())
    }

    /// Announces two changes in order.
    fn emit_pair(&mut self, first: GraphChange, second: GraphChange) -> (r: Result<()>)
        ensures
            r is Ok,
            final(self).emitted() == old(self).emitted().push(first@).push(second@),
            final(self).subscriber_count() <= old(self).subscriber_count(),
            final(self).same_providers(&*old(self)),
            old(self).subscribers_current() ==> final(self).subscribers_current(),
    {
        self.emit_change(first)?;
        self.emit_change(second)
    }
}

fn missing_provider_error(capability: &'static str, kind: &NodeKind) -> (e: GraphError)
    ensures
        missing_provider(e, capability@, kind@),
{
    GraphError::NotFound {
        kind: "provider",
        name: concat3(capability, " provider for ", kind.as_str()),
    }
}


/// The node views of providers' listings, one after another.
pub open spec fn flatten_views(parts: Seq<Vec<NodeId>>) -> Seq<NodeIdView>
    decreases parts.len(),
{
    if parts.len() == 0 {
        Seq::empty()
    } else {
        flatten_views(parts.drop_last()) + node_views(parts.last()@)
    }
}

impl<
    N: NodeProvider,
    NM: NodeMutationProvider,
    P: PropertyProvider,
    PM: PropertyMutationProvider,
    R: RelationProvider,
    RM: RelationMutationProvider,
> DynamicGraph<N, NM, P, PM, R, RM> {
    /// A listing of every node gathers what the node providers list, where
    /// each provider has one answer: when all of them list, the listing
    /// holds their nodes, none dropped and none added, in node order; when
    /// one of them fails, the listing fails with the error of a provider.
    pub proof fn lemma_nodes_gather_providers(
        &self,
        r: Result<Vec<NodeId>>,
        answers: Seq<Result<Vec<NodeId>>>,
    )
        requires
            answers.len() == self.node_provider_list().len(),
            forall|i: int, a: Result<Vec<NodeId>>|
                0 <= i < answers.len() && #[trigger] self.node_provider_list()[i].answers_nodes(a)
                    ==> a == answers[i],
            r matches Ok(v) ==> nodes_sorted(node_views(v@)) && exists|parts: Seq<Vec<NodeId>>|
                #![trigger flatten_views(parts)]
                parts.len() == self.node_provider_list().len() && (forall|i: int|
                    0 <= i < parts.len() ==> #[trigger] self.node_provider_list()[i].answers_nodes(
                        Ok(parts[i]),
                    )) && node_views(v@).to_multiset() == flatten_views(parts).to_multiset(),
            r matches Err(e) ==> exists|i: int|
                0 <= i < self.node_provider_list().len()
                    && #[trigger] self.node_provider_list()[i].answers_nodes(Err(e)),
        ensures
            (forall|i: int| 0 <= i < answers.len() ==> #[trigger] answers[i] is Ok) ==> (r matches Ok(
                v,
            ) && nodes_sorted(node_views(v@)) && node_views(v@).to_multiset() == flatten_views(
                answers.map_values(|a: Result<Vec<NodeId>>| a->Ok_0),
            ).to_multiset()),
            (exists|i: int| 0 <= i < answers.len() && #[trigger] answers[i] is Err) ==> (r matches Err(
                e,
            ) && exists|i: int| 0 <= i < answers.len() && #[trigger] answers[i] == Err::<Vec<NodeId>, GraphError>(e)),
    {
        let list = self.node_provider_list();
        match r {
            Ok(v) => {
                let parts = choose|parts: Seq<Vec<NodeId>>|
                    #![trigger flatten_views(parts)]
                    parts.len() == list.len() && (forall|i: int|
                        0 <= i < parts.len() ==> #[trigger] list[i].answers_nodes(Ok(parts[i])))
                        && node_views(v@).to_multiset() == flatten_views(parts).to_multiset();
                assert forall|i: int| 0 <= i < answers.len() implies answers[i] == Ok::<
                    Vec<NodeId>,
                    GraphError,
                >(parts[i]) by {
                    assert(list[i].answers_nodes(Ok(parts[i])));
                }
                assert(parts =~= answers.map_values(|a: Result<Vec<NodeId>>| a->Ok_0));
            },
            Err(e) => {
                let i = choose|i: int|
                    0 <= i < list.len() && #[trigger] list[i].answers_nodes(Err(e));
                assert(answers[i] == Err::<Vec<NodeId>, GraphError>(e));
            },
        }
    }

    /// What linking `source` to `target` through `relation` gives, from this
    /// graph to `after`: an error where the target's kind has no node
    /// provider; where its provider finds the target, the link made by the
    /// relation mutation provider of the source's kind and announced;
    /// otherwise the provider's error, the target not found, or the
    /// relation mutation provider missing or refusing, with nothing
    /// announced.
    pub open spec fn link_outcome(
        &self,
        after: Self,
        source: NodeIdView,
        relation: Seq<char>,
        target: NodeIdView,
        r: Result<()>,
    ) -> bool {
        match self.node_providers().get(target.kind) {
            None => r matches Err(e) && missing_provider(e, "node"@, target.kind)
                && after.emitted() == self.emitted(),
            Some(np) => match r {
                Ok(_) => np.answers_contains(target, Ok(true))
                    && self.relation_mutation_providers().contains_key(source.kind)
                    && self.relation_mutation_providers()[source.kind].links(
                    source,
                    relation,
                    target,
                ) && after.emitted() == self.emitted().push(
                    ChangeModel::RelationChanged(source, relation),
                ),
                Err(e) => after.emitted() == self.emitted() && {
                    ||| np.answers_contains(target, Err(e))
                    ||| np.answers_contains(target, Ok(false)) && is_not_found(
                        e,
                        "node"@,
                        node_id_text(target),
                    )
                    ||| np.answers_contains(target, Ok(true)) && match self.relation_mutation_providers().get(
                        source.kind,
                    ) {
                        None => is_unsupported(e, "relation mutation provider"@),
                        Some(p) => p.refuses_link(source, relation, target, e),
                    }
                },
            },
        }
    }

    /// Linking to a target that its node provider can only report absent
    /// fails with that node not found and changes nothing: no change is
    /// announced, and every provider, and so every relation the graph
    /// answers, stays as it was.
    pub proof fn lemma_link_to_absent_target(
        &self,
        after: Self,
        source: NodeIdView,
        relation: Seq<char>,
        target: NodeIdView,
        r: Result<()>,
    )
        requires
            self.link_outcome(after, source, relation, target, r),
            after.same_providers(self),
            self.node_providers().contains_key(target.kind),
            forall|a: Result<bool>|
                #[trigger] self.node_providers()[target.kind].answers_contains(target, a) ==> a
                    == Ok::<bool, GraphError>(false),
        ensures
            r matches Err(e) && is_not_found(e, "node"@, node_id_text(target)),
            after.emitted() == self.emitted(),
            after.same_providers(self),
    {
        let np = self.node_providers()[target.kind];
        assert(self.node_providers().get(target.kind) == Some(np));
        if np.answers_contains(target, Ok(true)) {
            assert(Ok::<bool, GraphError>(true) == Ok::<bool, GraphError>(false));
        }
        match r {
            Ok(_) => {},
            Err(e) => {
                if np.answers_contains(target, Err(e)) {
                    assert(Err::<bool, GraphError>(e) == Ok::<bool, GraphError>(false));
                }
            },
        }
    }

    /// Registers the node provider of its kind, replacing an earlier one.
    pub fn register_node_provider(&mut self, provider: N) -> (r: Result<()>)
        ensures
            old(self).subscribers_current() ==> final(self).subscribers_current(),
            r is Ok,
            final(self).node_providers() == old(self).node_providers().insert(
                provider.provider_kind(),
                provider,
            ),
            final(self).kinds_follow_providers(),
            final(self).node_mutation_providers() == old(self).node_mutation_providers(),
            final(self).property_providers() == old(self).property_providers(),
            final(self).property_mutation_providers() == old(self).property_mutation_providers(),
            final(self).relation_providers() == old(self).relation_providers(),
            final(self).relation_mutation_providers() == old(self).relation_mutation_providers(),
            final(self).emitted() == old(self).emitted(),
            final(self).subscriber_count() == old(self).subscriber_count(),
    {
        let kind = provider.kind().duplicate();
        self.nodes.insert(kind, provider);
        proof {
            lemma_providers_follow_kinds(self.nodes);
        }
        Ok(())
    }

    /// Registers the node mutation provider of `kind`, replacing an earlier one.
    pub fn register_node_mutation_provider(&mut self, kind: NodeKind, provider: NM) -> (r: Result<()>)
        ensures
            old(self).subscribers_current() ==> final(self).subscribers_current(),
            r is Ok,
            final(self).node_mutation_providers() == old(self).node_mutation_providers().insert(
                kind@,
                provider,
            ),
            final(self).node_providers() == old(self).node_providers(),
            final(self).node_provider_list() == old(self).node_provider_list(),
            final(self).property_providers() == old(self).property_providers(),
            final(self).property_mutation_providers() == old(self).property_mutation_providers(),
            final(self).relation_providers() == old(self).relation_providers(),
            final(self).relation_mutation_providers() == old(self).relation_mutation_providers(),
            final(self).emitted() == old(self).emitted(),
            final(self).subscriber_count() == old(self).subscriber_count(),
    {
        self.node_mutations.insert(kind, provider);
        Ok(())
    }

    /// Registers the property provider of `kind`, replacing an earlier one.
    pub fn register_property_provider(&mut self, kind: NodeKind, provider: P) -> (r: Result<()>)
        ensures
            old(self).subscribers_current() ==> final(self).subscribers_current(),
            r is Ok,
            final(self).property_providers() == old(self).property_providers().insert(
                kind@,
                provider,
            ),
            final(self).node_providers() == old(self).node_providers(),
            final(self).node_provider_list() == old(self).node_provider_list(),
            final(self).node_mutation_providers() == old(self).node_mutation_providers(),
            final(self).property_mutation_providers() == old(self).property_mutation_providers(),
            final(self).relation_providers() == old(self).relation_providers(),
            final(self).relation_mutation_providers() == old(self).relation_mutation_providers(),
            final(self).emitted() == old(self).emitted(),
            final(self).subscriber_count() == old(self).subscriber_count(),
    {
        self.properties.insert(kind, provider);
        Ok(())
    }

    /// Registers the property mutation provider of `kind`, replacing an
    /// earlier one.
    pub fn register_property_mutation_provider(&mut self, kind: NodeKind, provider: PM) -> (r:
        Result<()>)
        ensures
            old(self).subscribers_current() ==> final(self).subscribers_current(),
            r is Ok,
            final(self).property_mutation_providers() == old(self).property_mutation_providers().insert(kind@, provider),
            final(self).node_providers() == old(self).node_providers(),
            final(self).node_provider_list() == old(self).node_provider_list(),
            final(self).node_mutation_providers() == old(self).node_mutation_providers(),
            final(self).property_providers() == old(self).property_providers(),
            final(self).relation_providers() == old(self).relation_providers(),
            final(self).relation_mutation_providers() == old(self).relation_mutation_providers(),
            final(self).emitted() == old(self).emitted(),
            final(self).subscriber_count() == old(self).subscriber_count(),
    {
        self.property_mutations.insert(kind, provider);
        Ok(())
    }

    /// Registers the relation provider of `kind`, replacing an earlier one.
    pub fn register_relation_provider(&mut self, kind: NodeKind, provider: R) -> (r: Result<()>)
        ensures
            old(self).subscribers_current() ==> final(self).subscribers_current(),
            r is Ok,
            final(self).relation_providers() == old(self).relation_providers().insert(
                kind@,
                provider,
            ),
            final(self).node_providers() == old(self).node_providers(),
            final(self).node_provider_list() == old(self).node_provider_list(),
            final(self).node_mutation_providers() == old(self).node_mutation_providers(),
            final(self).property_providers() == old(self).property_providers(),
            final(self).property_mutation_providers() == old(self).property_mutation_providers(),
            final(self).relation_mutation_providers() == old(self).relation_mutation_providers(),
            final(self).emitted() == old(self).emitted(),
            final(self).subscriber_count() == old(self).subscriber_count(),
    {
        self.relations.insert(kind, provider);
        Ok(())
    }

    /// Registers the relation mutation provider of `kind`, replacing an
    /// earlier one.
    pub fn register_relation_mutation_provider(&mut self, kind: NodeKind, provider: RM) -> (r:
        Result<()>)
        ensures
            old(self).subscribers_current() ==> final(self).subscribers_current(),
            r is Ok,
            final(self).relation_mutation_providers() == old(self).relation_mutation_providers().insert(kind@, provider),
            final(self).node_providers() == old(self).node_providers(),
            final(self).node_provider_list() == old(self).node_provider_list(),
            final(self).node_mutation_providers() == old(self).node_mutation_providers(),
            final(self).property_providers() == old(self).property_providers(),
            final(self).property_mutation_providers() == old(self).property_mutation_providers(),
            final(self).relation_providers() == old(self).relation_providers(),
            final(self).emitted() == old(self).emitted(),
            final(self).subscriber_count() == old(self).subscriber_count(),
    {
        self.relation_mutations.insert(kind, provider);
        Ok(())
    }

    /// The kinds that have a node provider, in order.
    pub fn node_kinds(&self) -> (r: Result<Vec<NodeKind>>)
        ensures
            r matches Ok(kinds) && kinds@.map_values(|k: NodeKind| k@) == self.node_kind_list(),
            self.kinds_follow_providers(),
    {
        let n = self.nodes.len();
        proof {
            lemma_providers_follow_kinds(self.nodes);
        }
        let mut out: Vec<NodeKind> = Vec::new();
        let mut i: usize = 0;
        while i < n
            invariant
                n == self.nodes.keys().len(),
                i <= n,
                out@.len() == i,
                forall|j: int| 0 <= j < i ==> (#[trigger] out@[j])@ == self.nodes.keys()[j],
            decreases n - i,
        {
            out.push(self.nodes.key_at(i).duplicate());
            i += 1;
        }
        assert(out@.map_values(|k: NodeKind| k@) =~= self.nodes.keys());
        Ok(out)
    }

    /// Whether a node exists: the answer of the node provider of its kind.
    pub fn contains_node(&self, node: &NodeId) -> (r: Result<bool>)
        ensures
            match self.node_providers().get(node@.kind) {
                Some(p) => p.answers_contains(node@, r),
                None => r matches Err(e) && missing_provider(e, "node"@, node@.kind),
            },
    {
        match self.nodes.get(node.kind().as_str()) {
            Some(p) => p.contains_node(node),
            None => Err(missing_provider_error("node", node.kind())),
        }
    }

    /// All nodes of all kinds, in order.
    pub fn nodes(&self) -> (r: Result<Vec<NodeId>>)
        ensures
            r matches Ok(v) ==> nodes_sorted(node_views(v@)) && exists|parts: Seq<Vec<NodeId>>|
                #![trigger flatten_views(parts)]
                parts.len() == self.node_provider_list().len() && (forall|i: int|
                    0 <= i < parts.len() ==> #[trigger] self.node_provider_list()[i].answers_nodes(
                        Ok(parts[i]),
                    )) && node_views(v@).to_multiset() == flatten_views(parts).to_multiset(),
            r matches Err(e) ==> exists|i: int|
                0 <= i < self.node_provider_list().len()
                    && #[trigger] self.node_provider_list()[i].answers_nodes(Err(e)),
            self.kinds_follow_providers(),
    {
        let n = self.nodes.len();
        proof {
            lemma_providers_follow_kinds(self.nodes);
        }
        let ghost list = self.node_provider_list();
        let ghost mut parts: Seq<Vec<NodeId>> = Seq::empty();
        let mut out: Vec<NodeId> = Vec::new();
        let mut i: usize = 0;
        assert(node_views(out@) =~= flatten_views(parts));
        while i < n
            invariant
                n == list.len(),
                list == self.node_provider_list(),
                self.kinds_follow_providers(),
                i <= n,
                parts.len() == i,
                forall|j: int| 0 <= j < i ==> #[trigger] list[j].answers_nodes(Ok(parts[j])),
                node_views(out@) == flatten_views(parts),
            decreases n - i,
        {
            let provider = self.nodes.value_at(i);
            assert(list[i as int] == *provider);
            let listed = provider.nodes();
            match listed {
                Err(e) => {
                    return Err(e);
                },
                Ok(listed) => {
                    let ghost part = listed;
                    let mut j: usize = 0;
                    let ghost start = node_views(out@);
                    while j < listed.len()
                        invariant
                            j <= listed.len(),
                            node_views(out@) == start + node_views(listed@.take(j as int)),
                        decreases listed.len() - j,
                    {
                        let ghost before = out@;
                        out.push(listed[j].duplicate());
                        proof {
                            assert(node_views(out@) =~= node_views(before).push(listed@[j as int]@));
                            assert(node_views(listed@.take(j + 1)) =~= node_views(
                                listed@.take(j as int),
                            ).push(listed@[j as int]@));
                        }
                        j += 1;
                    }
                    assert(listed@.take(listed.len() as int) =~= listed@);
                    proof {
                        let old_parts = parts;
                        parts = parts.push(part);
                        assert(parts.drop_last() =~= old_parts);
                    }
                },
            }
            i += 1;
        }
        let sorted = sort_nodes(out);
        Ok(sorted)
    }

    /// The nodes of one kind, in order: the listing of its node provider.
    pub fn nodes_by_kind(&self, kind: &NodeKind) -> (r: Result<Vec<NodeId>>)
        ensures
            match self.node_providers().get(kind@) {
                Some(p) => match r {
                    Ok(v) => nodes_sorted(node_views(v@)) && exists|w: Vec<NodeId>|
                        #![trigger p.answers_nodes(Ok(w))]
                        p.answers_nodes(Ok(w)) && node_views(v@).to_multiset() == node_views(
                            w@,
                        ).to_multiset(),
                    Err(e) => p.answers_nodes(Err(e)),
                },
                None => r matches Err(e) && missing_provider(e, "node"@, kind@),
            },
    {
        match self.nodes.get(kind.as_str()) {
            Some(p) => {
                let listed = p.nodes();
                match listed {
                    Ok(v) => {
                        let ghost w = v;
                        let sorted = sort_nodes(v);
                        proof {
                            let q = self.node_providers().get(kind@).unwrap();
                            assert(q == *p);
                            assert(q.answers_nodes(Ok(w)));
                        }
                        Ok(sorted)
                    },
                    Err(e) => Err(e),
                }
            },
            None => Err(missing_provider_error("node", kind)),
        }
    }

    /// The spec of a property: the answer of the property provider of the
    /// subject's kind.
    pub fn property_spec(&self, subject: &NodeId, key: &PropertyKey) -> (r: Result<PropertySpec>)
        ensures
            match self.property_providers().get(subject@.kind) {
                Some(p) => p.answers_property_spec(subject@, key@, r),
                None => r matches Err(e) && missing_provider(e, "property"@, subject@.kind),
            },
    {
        match self.properties.get(subject.kind().as_str()) {
            Some(p) => p.property_spec(subject, key),
            None => Err(missing_provider_error("property", subject.kind())),
        }
    }

    /// The specs of a node's properties, as its property provider lists them.
    pub fn properties(&self, subject: &NodeId) -> (r: Result<Vec<PropertySpec>>)
        ensures
            match self.property_providers().get(subject@.kind) {
                Some(p) => p.answers_properties(subject@, r),
                None => r matches Err(e) && missing_provider(e, "property"@, subject@.kind),
            },
    {
        match self.properties.get(subject.kind().as_str()) {
            Some(p) => p.properties(subject),
            None => Err(missing_provider_error("property", subject.kind())),
        }
    }

    /// The value of a property, as its property provider gives it.
    pub fn property(&self, subject: &NodeId, key: &PropertyKey) -> (r: Result<LocusValue>)
        ensures
            match self.property_providers().get(subject@.kind) {
                Some(p) => p.answers_property(subject@, key@, r),
                None => r matches Err(e) && missing_provider(e, "property"@, subject@.kind),
            },
    {
        match self.properties.get(subject.kind().as_str()) {
            Some(p) => p.property(subject, key),
            None => Err(missing_provider_error("property", subject.kind())),
        }
    }

    /// The relation names of a node, as its relation provider lists them.
    pub fn relations(&self, source: &NodeId) -> (r: Result<Vec<RelationName>>)
        ensures
            match self.relation_providers().get(source@.kind) {
                Some(p) => p.answers_relations(source@, r),
                None => r matches Err(e) && missing_provider(e, "relation"@, source@.kind),
            },
    {
        match self.relations.get(source.kind().as_str()) {
            Some(p) => p.relations(source),
            None => Err(missing_provider_error("relation", source.kind())),
        }
    }

    /// The targets of a relation, as the relation provider gives them.
    pub fn targets(&self, source: &NodeId, relation: &RelationName) -> (r: Result<Vec<NodeId>>)
        ensures
            match self.relation_providers().get(source@.kind) {
                Some(p) => p.answers_targets(source@, relation@, r),
                None => r matches Err(e) && missing_provider(e, "relation"@, source@.kind),
            },
    {
        match self.relations.get(source.kind().as_str()) {
            Some(p) => p.targets(source, relation),
            None => Err(missing_provider_error("relation", source.kind())),
        }
    }
}


/// Whether a node id occurs in a run of node ids.
fn contains_id(targets: &Vec<NodeId>, target: &NodeId) -> (r: bool)
    ensures
        r == node_views(targets@).contains(target@),
{
    let mut i: usize = 0;
    while i < targets.len()
        invariant
            i <= targets.len(),
            forall|j: int| 0 <= j < i ==> targets@[j]@ != target@,
        decreases targets.len() - i,
    {
        if targets[i].same_as(target) {
            assert(node_views(targets@)[i as int] == target@);
            return true;
        }
        i += 1;
    }
    proof {
        if node_views(targets@).contains(target@) {
            let j = choose|j: int| 0 <= j < node_views(targets@).len() && node_views(targets@)[j] == target@;
            assert(targets@[j]@ == target@);
        }
    }
    false
}

impl<
    N: NodeProvider,
    NM: NodeMutationProvider,
    P: PropertyProvider,
    PM: PropertyMutationProvider,
    R: RelationProvider,
    RM: RelationMutationProvider,
> DynamicGraph<N, NM, P, PM, R, RM> {
    /// Creates a node through the node mutation provider of its kind and
    /// announces it.
    pub fn create_node(&mut self, node: &NodeId) -> (r: Result<()>)
        ensures
            old(self).subscribers_current() ==> final(self).subscribers_current(),
            final(self).same_providers(&*old(self)),
            final(self).subscriber_count() <= old(self).subscriber_count(),
            match old(self).node_mutation_providers().get(node@.kind) {
                None => r matches Err(e) && is_unsupported(e, "node mutation provider"@)
                    && final(self).emitted() == old(self).emitted(),
                Some(p) => match r {
                    Ok(_) => p.creates(node@) && final(self).emitted() == old(self).emitted().push(
                        ChangeModel::NodeChanged(node@),
                    ).push(ChangeModel::NodeKindChanged(node@.kind)),
                    Err(e) => p.refuses_create(node@, e) && final(self).emitted() == old(self).emitted(),
                },
            },
    {
        let created = match self.node_mutations.get(node.kind().as_str()) {
            Some(p) => p.create_node(node),
            None => {
                return Err(GraphError::Unsupported { operation: "node mutation provider" });
            },
        };
        match created {
            Ok(()) => {},
            Err(e) => {
                return Err(e);
            },
        }
        self.emit_pair(
            GraphChange::NodeChanged { node: node.duplicate() },
            GraphChange::NodeKindChanged { kind: node.kind().duplicate() },
        )
    }

    /// Removes a node: refuses one its node provider does not hold, removes
    /// the links that point at it, then removes it through the node
    /// mutation provider of its kind and announces it.
    pub fn remove_node(&mut self, node: &NodeId) -> (r: Result<()>)
        ensures
            old(self).subscribers_current() ==> final(self).subscribers_current(),
            final(self).same_providers(&*old(self)),
            final(self).subscriber_count() <= old(self).subscriber_count(),
            match old(self).node_providers().get(node@.kind) {
                None => r matches Err(e) && missing_provider(e, "node"@, node@.kind)
                    && final(self).emitted() == old(self).emitted(),
                Some(np) => match r {
                    Ok(_) => np.answers_contains(node@, Ok(true)) && (forall|i: int|
                        0 <= i < old(self).node_provider_list().len() ==> old(self).provider_swept(
                            #[trigger] old(self).node_provider_list()[i],
                            node@,
                        )) && old(self).node_mutation_providers().contains_key(node@.kind) && old(
                        self,
                    ).node_mutation_providers()[node@.kind].removes(node@) && final(self).emitted()
                        == old(self).emitted().push(ChangeModel::NodeRemoved(node@)).push(
                        ChangeModel::NodeKindChanged(node@.kind),
                    ),
                    Err(e) => final(self).emitted() == old(self).emitted() && {
                        ||| np.answers_contains(node@, Err(e))
                        ||| np.answers_contains(node@, Ok(false)) && is_not_found(
                            e,
                            "node"@,
                            node_id_text(node@),
                        )
                        ||| np.answers_contains(node@, Ok(true)) && old(self).inbound_error(node@, e)
                        ||| np.answers_contains(node@, Ok(true)) && (forall|i: int|
                            0 <= i < old(self).node_provider_list().len() ==> old(
                                self,
                            ).provider_swept(#[trigger] old(self).node_provider_list()[i], node@))
                            && match old(self).node_mutation_providers().get(node@.kind) {
                            None => is_unsupported(e, "node mutation provider"@),
                            Some(p) => p.refuses_remove(node@, e),
                        }
                    },
                },
            },
    {
        let present = match self.contains_node(node) {
            Ok(b) => b,
            Err(e) => {
                return Err(e);
            },
        };
        if !present {
            return Err(GraphError::NotFound { kind: "node", name: node.to_text() });
        }
        match self.remove_inbound_links(node) {
            Ok(()) => {},
            Err(e) => {
                return Err(e);
            },
        }
        let removed = match self.node_mutations.get(node.kind().as_str()) {
            Some(p) => p.remove_node(node),
            None => {
                return Err(GraphError::Unsupported { operation: "node mutation provider" });
            },
        };
        match removed {
            Ok(()) => {},
            Err(e) => {
                return Err(e);
            },
        }
        self.emit_pair(
            GraphChange::NodeRemoved { node: node.duplicate() },
            GraphChange::NodeKindChanged { kind: node.kind().duplicate() },
        )
    }

    /// Writes a property through the property mutation provider of the
    /// subject's kind and announces it.
    pub fn set_property(&mut self, subject: &NodeId, key: &PropertyKey, value: LocusValue) -> (r:
        Result<()>)
        ensures
            old(self).subscribers_current() ==> final(self).subscribers_current(),
            final(self).same_providers(&*old(self)),
            final(self).subscriber_count() <= old(self).subscriber_count(),
            match old(self).property_mutation_providers().get(subject@.kind) {
                None => r matches Err(e) && is_unsupported(e, "property mutation provider"@)
                    && final(self).emitted() == old(self).emitted(),
                Some(p) => match r {
                    Ok(_) => p.sets_property(subject@, key@, value@) && final(self).emitted() == old(self).emitted().push(ChangeModel::PropertyChanged(subject@, key@)),
                    Err(e) => p.refuses_set_property(subject@, key@, value@, e) && final(self).emitted()
                        == old(self).emitted(),
                },
            },
    {
        let written = match self.property_mutations.get(subject.kind().as_str()) {
            Some(p) => p.set_property(subject, key, value),
            None => {
                return Err(GraphError::Unsupported { operation: "property mutation provider" });
            },
        };
        match written {
            Ok(()) => {},
            Err(e) => {
                return Err(e);
            },
        }
        self.emit_change(GraphChange::PropertyChanged { node: subject.duplicate(), key: key.duplicate() })
    }

    /// Removes a property through the property mutation provider of the
    /// subject's kind and announces it.
    pub fn remove_property(&mut self, subject: &NodeId, key: &PropertyKey) -> (r: Result<()>)
        ensures
            old(self).subscribers_current() ==> final(self).subscribers_current(),
            final(self).same_providers(&*old(self)),
            final(self).subscriber_count() <= old(self).subscriber_count(),
            match old(self).property_mutation_providers().get(subject@.kind) {
                None => r matches Err(e) && is_unsupported(e, "property mutation provider"@)
                    && final(self).emitted() == old(self).emitted(),
                Some(p) => match r {
                    Ok(_) => p.removes_property(subject@, key@) && final(self).emitted() == old(self).emitted().push(ChangeModel::PropertyChanged(subject@, key@)),
                    Err(e) => p.refuses_remove_property(subject@, key@, e) && final(self).emitted()
                        == old(self).emitted(),
                },
            },
    {
        let removed = match self.property_mutations.get(subject.kind().as_str()) {
            Some(p) => p.remove_property(subject, key),
            None => {
                return Err(GraphError::Unsupported { operation: "property mutation provider" });
            },
        };
        match removed {
            Ok(()) => {},
            Err(e) => {
                return Err(e);
            },
        }
        self.emit_change(GraphChange::PropertyChanged { node: subject.duplicate(), key: key.duplicate() })
    }

    /// Links `source` to `target` under `relation`: refuses a target its
    /// node provider does not hold, then links through the relation mutation
    /// provider of the source's kind and announces it.
    pub fn set_link(&mut self, source: &NodeId, relation: &RelationName, target: &NodeId) -> (r:
        Result<()>)
        ensures
            old(self).subscribers_current() ==> final(self).subscribers_current(),
            final(self).same_providers(&*old(self)),
            final(self).subscriber_count() <= old(self).subscriber_count(),
            old(self).link_outcome(*final(self), source@, relation@, target@, r),
    {
        let present = match self.contains_node(target) {
            Ok(b) => b,
            Err(e) => {
                return Err(e);
            },
        };
        if !present {
            return Err(GraphError::NotFound { kind: "node", name: target.to_text() });
        }
        let linked = match self.relation_mutations.get(source.kind().as_str()) {
            Some(p) => p.set_link(source, relation, target),
            None => {
                return Err(GraphError::Unsupported { operation: "relation mutation provider" });
            },
        };
        match linked {
            Ok(()) => {},
            Err(e) => {
                return Err(e);
            },
        }
        self.emit_change(
            GraphChange::RelationChanged { source: source.duplicate(), relation: relation.duplicate() },
        )
    }

    /// Unlinks `target` from `source` under `relation` through the relation
    /// mutation provider of the source's kind and announces it.
    pub fn remove_link(&mut self, source: &NodeId, relation: &RelationName, target: &NodeId) -> (r:
        Result<()>)
        ensures
            old(self).subscribers_current() ==> final(self).subscribers_current(),
            final(self).same_providers(&*old(self)),
            final(self).subscriber_count() <= old(self).subscriber_count(),
            match old(self).relation_mutation_providers().get(source@.kind) {
                None => r matches Err(e) && is_unsupported(e, "relation mutation provider"@)
                    && final(self).emitted() == old(self).emitted(),
                Some(p) => match r {
                    Ok(_) => p.unlinks(source@, relation@, target@) && final(self).emitted() == old(self).emitted().push(ChangeModel::RelationChanged(source@, relation@)),
                    Err(e) => p.refuses_unlink(source@, relation@, target@, e) && final(self).emitted()
                        == old(self).emitted(),
                },
            },
    {
        let unlinked = match self.relation_mutations.get(source.kind().as_str()) {
            Some(p) => p.remove_link(source, relation, target),
            None => {
                return Err(GraphError::Unsupported { operation: "relation mutation provider" });
            },
        };
        match unlinked {
            Ok(()) => {},
            Err(e) => {
                return Err(e);
            },
        }
        self.emit_change(
            GraphChange::RelationChanged { source: source.duplicate(), relation: relation.duplicate() },
        )
    }

    /// Whether the link from `source` through `relation` to `target` is
    /// gone: the relation mutation provider of the source's kind unlinked
    /// it, or answered that it was not found.
    pub open spec fn unlink_done(&self, source: NodeIdView, relation: Seq<char>, target: NodeIdView) -> bool {
        let p = self.relation_mutation_providers()[source.kind];
        ||| p.unlinks(source, relation, target)
        ||| exists|e: GraphError| e is NotFound && #[trigger] p.refuses_unlink(source, relation, target, e)
    }

    /// Whether the relation `relation` of `source` was swept of `target`:
    /// its targets were not found, or were listed and, where they held
    /// `target`, the link to it is gone.
    pub open spec fn relation_swept(&self, source: NodeIdView, relation: Seq<char>, target: NodeIdView) -> bool {
        let rp = self.relation_providers()[source.kind];
        ||| exists|e: GraphError| e is NotFound && #[trigger] rp.answers_targets(source, relation, Err(e))
        ||| exists|ts: Vec<NodeId>|
            #[trigger] rp.answers_targets(source, relation, Ok(ts)) && (node_views(ts@).contains(target)
                ==> self.relation_mutation_providers().contains_key(source.kind) && self.unlink_done(
                source,
                relation,
                target,
            ))
    }

    /// Whether node `source` was swept of links to `target`: its kind has
    /// no relation provider, its relations were not found, or each relation
    /// it listed was swept.
    pub open spec fn source_swept(&self, source: NodeIdView, target: NodeIdView) -> bool {
        let rp = self.relation_providers()[source.kind];
        ||| !self.relation_providers().contains_key(source.kind)
        ||| exists|e: GraphError| e is NotFound && #[trigger] rp.answers_relations(source, Err(e))
        ||| exists|names: Vec<RelationName>|
            #[trigger] rp.answers_relations(source, Ok(names)) && forall|k: int|
                0 <= k < names@.len() ==> self.relation_swept(source, #[trigger] names@[k]@, target)
    }

    /// Whether every node that node provider `p` listed was swept of links
    /// to `target`.
    pub open spec fn provider_swept(&self, p: N, target: NodeIdView) -> bool {
        exists|l: Vec<NodeId>|
            #[trigger] p.answers_nodes(Ok(l)) && forall|t: int|
                0 <= t < l@.len() ==> self.source_swept(#[trigger] l@[t]@, target)
    }

    /// The errors a sweep for links to `target` stops on: a listing of a
    /// node provider that failed; a relation listing, target listing or
    /// unlinking that failed otherwise than not found; a link to `target`
    /// from a kind with no relation mutation provider.
    pub open spec fn inbound_error(&self, target: NodeIdView, e: GraphError) -> bool {
        ||| exists|i: int|
            0 <= i < self.node_provider_list().len() && #[trigger] self.node_provider_list()[i].answers_nodes(
                Err(e),
            )
        ||| !(e is NotFound) && exists|s: NodeIdView|
            self.relation_providers().contains_key(s.kind) && #[trigger] self.relation_providers()[s.kind].answers_relations(
                s,
                Err(e),
            )
        ||| !(e is NotFound) && exists|s: NodeIdView, rel: Seq<char>|
            self.relation_providers().contains_key(s.kind) && #[trigger] self.relation_providers()[s.kind].answers_targets(
                s,
                rel,
                Err(e),
            )
        ||| is_unsupported(e, "relation mutation provider"@) && exists|s: NodeIdView, rel: Seq<char>, ts: Vec<NodeId>|
            self.relation_providers().contains_key(s.kind) && #[trigger] self.relation_providers()[s.kind].answers_targets(
                s,
                rel,
                Ok(ts),
            ) && node_views(ts@).contains(target) && !self.relation_mutation_providers().contains_key(s.kind)
        ||| !(e is NotFound) && exists|s: NodeIdView, rel: Seq<char>|
            self.relation_mutation_providers().contains_key(s.kind)
                && #[trigger] self.relation_mutation_providers()[s.kind].refuses_unlink(s, rel, target, e)
    }

    /// Removes every link that points at `target`: walks the nodes of every
    /// node provider and the relations of each, and unlinks `target` where a
    /// relation holds it. Sources and relations that have gone missing are
    /// passed over, as is a link that is already gone.
    fn remove_inbound_links(&self, target: &NodeId) -> (r: Result<()>)
        ensures
            r is Ok ==> forall|i: int|
                0 <= i < self.node_provider_list().len() ==> self.provider_swept(
                    #[trigger] self.node_provider_list()[i],
                    target@,
                ),
            r matches Err(e) ==> self.inbound_error(target@, e),
    {
        let n = self.nodes.len();
        let mut i: usize = 0;
        while i < n
            invariant
                n == self.nodes.entries().len(),
                n == self.node_provider_list().len(),
                i <= n,
                forall|j: int| 0 <= j < i ==> self.provider_swept(#[trigger] self.node_provider_list()[j], target@),
            decreases n - i,
        {
            let provider = self.nodes.value_at(i);
            assert(self.node_provider_list()[i as int] == *provider);
            let sources = match provider.nodes() {
                Ok(v) => v,
                Err(e) => {
                    assert(self.node_provider_list()[i as int].answers_nodes(Err(e)));
                    return Err(e);
                },
            };
            let mut s: usize = 0;
            while s < sources.len()
                invariant
                    s <= sources.len(),
                    forall|t: int| 0 <= t < s ==> self.source_swept(#[trigger] sources@[t]@, target@),
                decreases sources.len() - s,
            {
                let source = &sources[s];
                s += 1;
                let relation_provider = match self.relations.get(source.kind().as_str()) {
                    Some(p) => p,
                    None => {
                        assert(self.source_swept(source@, target@));
                        continue;
                    },
                };
                let names = match relation_provider.relations(source) {
                    Ok(names) => names,
                    Err(GraphError::NotFound { kind, name }) => {
                        let ghost e = GraphError::NotFound { kind, name };
                        assert(relation_provider.answers_relations(source@, Err(e)));
                        assert(self.source_swept(source@, target@));
                        continue;
                    },
                    Err(e) => {
                        assert(self.relation_providers()[source@.kind].answers_relations(source@, Err(e)));
                        return Err(e);
                    },
                };
                let mut k: usize = 0;
                while k < names.len()
                    invariant
                        k <= names.len(),
                        self.relation_providers().contains_key(source@.kind),
                        self.relation_providers()[source@.kind] == *relation_provider,
                        forall|q: int| 0 <= q < k ==> self.relation_swept(source@, #[trigger] names@[q]@, target@),
                    decreases names.len() - k,
                {
                    let relation = &names[k];
                    k += 1;
                    let targets = match relation_provider.targets(source, relation) {
                        Ok(targets) => targets,
                        Err(GraphError::NotFound { kind, name }) => {
                            let ghost e = GraphError::NotFound { kind, name };
                            assert(relation_provider.answers_targets(source@, relation@, Err(e)));
                            assert(self.relation_swept(source@, relation@, target@));
                            continue;
                        },
                        Err(e) => {
                            assert(self.relation_providers()[source@.kind].answers_targets(source@, relation@, Err(e)));
                            return Err(e);
                        },
                    };
                    if contains_id(&targets, target) {
                        let unlinked = match self.relation_mutations.get(source.kind().as_str()) {
                            Some(p) => p.remove_link(source, relation, target),
                            None => {
                                assert(self.relation_providers()[source@.kind].answers_targets(
                                    source@,
                                    relation@,
                                    Ok(targets),
                                ));
                                return Err(
                                    GraphError::Unsupported {
                                        operation: "relation mutation provider",
                                    },
                                );
                            },
                        };
                        match unlinked {
                            Ok(()) => {},
                            Err(GraphError::NotFound { kind, name }) => {
                                let ghost e = GraphError::NotFound { kind, name };
                                assert(self.relation_mutation_providers()[source@.kind].refuses_unlink(
                                    source@,
                                    relation@,
                                    target@,
                                    e,
                                ));
                            },
                            Err(e) => {
                                assert(self.relation_mutation_providers()[source@.kind].refuses_unlink(
                                    source@,
                                    relation@,
                                    target@,
                                    e,
                                ));
                                return Err(e);
                            },
                        }
                    }
                    assert(relation_provider.answers_targets(source@, relation@, Ok(targets)));
                    assert(self.relation_swept(source@, relation@, target@));
                }
                assert(relation_provider.answers_relations(source@, Ok(names)));
                assert(self.source_swept(source@, target@));
            }
            assert(provider.answers_nodes(Ok(sources)));
            assert(self.provider_swept(self.node_provider_list()[i as int], target@));
            i += 1;
        }
        Ok(())
    }
}

impl<N, NM, P, PM, R, RM> Default for DynamicGraph<N, NM, P, PM, R, RM> {
    fn default() -> (r: Self)
        ensures
            r.node_providers() == Map::<Seq<char>, N>::empty(),
            r.node_mutation_providers() == Map::<Seq<char>, NM>::empty(),
            r.property_providers() == Map::<Seq<char>, P>::empty(),
            r.property_mutation_providers() == Map::<Seq<char>, PM>::empty(),
            r.relation_providers() == Map::<Seq<char>, R>::empty(),
            r.relation_mutation_providers() == Map::<Seq<char>, RM>::empty(),
            r.emitted() == Seq::<ChangeModel>::empty(),
            r.subscriber_count() == 0,
            r.subscribers_current(),
    {
        Self::new()
    }
}

} // verus!
