//! The websocket subscribers and what happens to them when clients connect,
//! disconnect, or when a publisher's payload has to be relayed.
//!
//! The registry keeps, for every connected client, the handle through which
//! it is reached (for the relay: a `simple_websockets::Responder`). It decides
//! which texts go to which clients; sending them is left to the caller.
use simple_websockets::Responder;
use std::collections::HashMap;
use vstd::prelude::*;
use vstd::std_specs::hash::{axiom_spec_keys_iter, spec_keys_iter};
use vstd::std_specs::iter::IteratorSpec;
use crate::app::PublisherMessage;

verus! {

broadcast use vstd::std_specs::hash::group_hash_axioms;

/// The handle through which a websocket client is sent messages.
#[verifier::external_type_specification]
#[verifier::external_body]
pub struct ExResponder(simple_websockets::Responder);

/// Something that happened, to which the subscriber registry reacts.
pub enum JustRateAction<R = Responder> {
    /// A websocket client connected under this id, reachable through this handle.
    AddClient(u64, R),
    /// The websocket client with this id disconnected.
    RemoveClient(u64),
    /// A publisher sent a payload to relay to every subscriber.
    BroadCastMessageToAllClients(PublisherMessage),
}

/// A text to send to one connected client: its id and the text.
pub type Delivery = (u64, String);

/// The client ids of a list of deliveries, in order.
pub open spec fn delivery_ids(deliveries: Seq<Delivery>) -> Seq<u64> {
    deliveries.map_values(|d: Delivery| d.0)
}

/// The deliveries that relay `payload` to exactly the clients in `clients`:
/// each connected client once, each with the payload as its text.
pub open spec fn relays_to_all(deliveries: Seq<Delivery>, clients: Set<u64>, payload: Seq<char>) -> bool {
    &&& delivery_ids(deliveries).no_duplicates()
    &&& delivery_ids(deliveries).to_set() == clients
    &&& forall|i: int| 0 <= i < deliveries.len() ==> (#[trigger] deliveries[i]).1@ == payload
}

/// The clients after an action.
pub open spec fn clients_after_action<R>(clients: Map<u64, R>, action: JustRateAction<R>) -> Map<u64, R> {
    match action {
        JustRateAction::AddClient(id, handle) => clients.insert(id, handle),
        JustRateAction::RemoveClient(id) => clients.remove(id),
        JustRateAction::BroadCastMessageToAllClients(_) => clients,
    }
}

/// The subscriber count after an action.
pub open spec fn count_after_action<R>(count: int, action: JustRateAction<R>) -> int {
    match action {
        JustRateAction::AddClient(_, _) => count + 1,
        JustRateAction::RemoveClient(_) => count - 1,
        JustRateAction::BroadCastMessageToAllClients(_) => count,
    }
}

/// The clients after a sequence of actions, applied in order.
pub open spec fn clients_after<R>(clients: Map<u64, R>, actions: Seq<JustRateAction<R>>) -> Map<u64, R>
    decreases actions.len(),
{
    if actions.len() == 0 {
        clients
    } else {
        clients_after(clients_after_action(clients, actions[0]), actions.drop_first())
    }
}

/// The subscriber count after a sequence of actions, applied in order.
pub open spec fn count_after<R>(count: int, actions: Seq<JustRateAction<R>>) -> int
    decreases actions.len(),
{
    if actions.len() == 0 {
        count
    } else {
        count_after(count_after_action(count, actions[0]), actions.drop_first())
    }
}

/// Whether a sequence of actions, starting from these clients, only connects
/// ids that are not connected and only disconnects ids that are: what the
/// websocket hub reports.
pub open spec fn well_formed_actions<R>(clients: Map<u64, R>, actions: Seq<JustRateAction<R>>) -> bool
    decreases actions.len(),
{
    if actions.len() == 0 {
        true
    } else {
        &&& match actions[0] {
            JustRateAction::AddClient(id, _) => !clients.contains_key(id),
            JustRateAction::RemoveClient(id) => clients.contains_key(id),
            JustRateAction::BroadCastMessageToAllClients(_) => true,
        }
        &&& well_formed_actions(clients_after_action(clients, actions[0]), actions.drop_first())
    }
}

/// Whether, applying the actions in order from this count, every
/// disconnection finds a positive count.
pub open spec fn never_below_zero<R>(count: int, actions: Seq<JustRateAction<R>>) -> bool
    decreases actions.len(),
{
    if actions.len() == 0 {
        true
    } else {
        &&& (actions[0] is RemoveClient ==> count > 0)
        &&& never_below_zero(count_after_action(count, actions[0]), actions.drop_first())
    }
}

/// Over any sequence of connections and disconnections that the hub can
/// report, starting from a count that matches the clients, the count keeps
/// matching the connected clients, and no disconnection finds the count at
/// zero.
pub proof fn lemma_count_tracks_clients<R>(
    clients: Map<u64, R>,
    count: int,
    actions: Seq<JustRateAction<R>>,
)
    requires
        clients.dom().finite(),
        count == clients.len(),
        well_formed_actions(clients, actions),
    ensures
        count_after(count, actions) == clients_after(clients, actions).len(),
        clients_after(clients, actions).dom().finite(),
        never_below_zero(count, actions),
    decreases actions.len(),
{
    if actions.len() > 0 {
        let next = clients_after_action(clients, actions[0]);
        let next_count = count_after_action(count, actions[0]);
        match actions[0] {
            JustRateAction::AddClient(id, _) => {
                assert(next.len() == clients.len() + 1);
            },
            JustRateAction::RemoveClient(id) => {
                assert(next.len() == clients.len() - 1);
                assert(clients.len() > 0) by {
                    vstd::set_lib::lemma_set_empty_equivalency_len(clients.dom());
                }
            },
            JustRateAction::BroadCastMessageToAllClients(_) => {},
        }
        lemma_count_tracks_clients(next, next_count, actions.drop_first());
    }
}

/// The deliveries of one action, given the clients before it: a payload
/// goes once to every connected client; a connection or a disconnection
/// delivers nothing.
pub open spec fn step_delivers<R>(clients: Map<u64, R>, action: JustRateAction<R>, out: Seq<Delivery>) -> bool {
    match action {
        JustRateAction::BroadCastMessageToAllClients(message) => relays_to_all(
            out,
            clients.dom(),
            message.payload@,
        ),
        _ => out.len() == 0,
    }
}

/// `outs[k]` are the deliveries of `actions[k]`, for actions applied in
/// order from these clients, each as `SubscriberRegistry::apply` delivers.
pub open spec fn run_delivers<R>(
    clients: Map<u64, R>,
    actions: Seq<JustRateAction<R>>,
    outs: Seq<Seq<Delivery>>,
) -> bool
    decreases actions.len(),
{
    &&& outs.len() == actions.len()
    &&& actions.len() > 0 ==> {
        &&& step_delivers(clients, actions[0], outs[0])
        &&& run_delivers(clients_after_action(clients, actions[0]), actions.drop_first(), outs.drop_first())
    }
}

/// The texts that a list of deliveries sends to one client, in order.
pub open spec fn texts_for(client_id: u64, out: Seq<Delivery>) -> Seq<Seq<char>>
    decreases out.len(),
{
    if out.len() == 0 {
        Seq::empty()
    } else {
        (if out[0].0 == client_id {
            seq![out[0].1@]
        } else {
            Seq::empty()
        }) + texts_for(client_id, out.drop_first())
    }
}

/// The texts that a run's deliveries send to one client, step after step.
pub open spec fn received_by(client_id: u64, outs: Seq<Seq<Delivery>>) -> Seq<Seq<char>>
    decreases outs.len(),
{
    if outs.len() == 0 {
        Seq::empty()
    } else {
        texts_for(client_id, outs[0]) + received_by(client_id, outs.drop_first())
    }
}

/// The payloads broadcast, in order, while the client is connected, for
/// actions applied in order from these clients.
pub open spec fn published_while_connected<R>(
    client_id: u64,
    clients: Map<u64, R>,
    actions: Seq<JustRateAction<R>>,
) -> Seq<Seq<char>>
    decreases actions.len(),
{
    if actions.len() == 0 {
        Seq::empty()
    } else {
        (match actions[0] {
            JustRateAction::BroadCastMessageToAllClients(message) => if clients.contains_key(
                client_id,
            ) {
                seq![message.payload@]
            } else {
                Seq::empty()
            },
            _ => Seq::empty(),
        }) + published_while_connected(
            client_id,
            clients_after_action(clients, actions[0]),
            actions.drop_first(),
        )
    }
}

/// Deliveries to distinct clients, all with the same text, send that text
/// to a client once if it is among them and not at all otherwise.
proof fn lemma_texts_for_distinct(client_id: u64, out: Seq<Delivery>, text: Seq<char>)
    requires
        delivery_ids(out).no_duplicates(),
        forall|i: int| 0 <= i < out.len() ==> (#[trigger] out[i]).1@ == text,
    ensures
        texts_for(client_id, out) == if delivery_ids(out).contains(client_id) {
            seq![text]
        } else {
            Seq::<Seq<char>>::empty()
        },
    decreases out.len(),
{
    if out.len() > 0 {
        let rest = out.drop_first();
        assert(delivery_ids(rest) =~= delivery_ids(out).drop_first());
        assert forall|i: int| 0 <= i < rest.len() implies (#[trigger] rest[i]).1@ == text by {
            assert(rest[i] == out[i + 1]);
        }
        lemma_texts_for_distinct(client_id, rest, text);
        assert(delivery_ids(out)[0] == out[0].0);
        if out[0].0 == client_id {
            assert(!delivery_ids(rest).contains(client_id)) by {
                if delivery_ids(rest).contains(client_id) {
                    let j = choose|j: int| 0 <= j < delivery_ids(rest).len() && delivery_ids(rest)[j] == client_id;
                    assert(delivery_ids(out)[j + 1] == client_id);
                }
            }
            assert(texts_for(client_id, rest) =~= Seq::<Seq<char>>::empty());
            assert(texts_for(client_id, out) =~= seq![text]);
            assert(delivery_ids(out).contains(client_id));
        } else {
            assert(texts_for(client_id, out) =~= texts_for(client_id, rest));
            assert(delivery_ids(out).contains(client_id) == delivery_ids(rest).contains(client_id)) by {
                if delivery_ids(out).contains(client_id) {
                    let j = choose|j: int| 0 <= j < delivery_ids(out).len() && delivery_ids(out)[j] == client_id;
                    assert(j > 0);
                    assert(delivery_ids(rest)[j - 1] == client_id);
                }
                if delivery_ids(rest).contains(client_id) {
                    let j = choose|j: int| 0 <= j < delivery_ids(rest).len() && delivery_ids(rest)[j] == client_id;
                    assert(delivery_ids(out)[j + 1] == client_id);
                }
            }
        }
    }
}

/// Over any sequence of actions applied one after the other, each client is
/// sent exactly the payloads broadcast while it is connected, each once, in
/// the order they were broadcast, and nothing else.
pub proof fn lemma_clients_receive_what_is_published_while_connected<R>(
    client_id: u64,
    clients: Map<u64, R>,
    actions: Seq<JustRateAction<R>>,
    outs: Seq<Seq<Delivery>>,
)
    requires
        run_delivers(clients, actions, outs),
    ensures
        received_by(client_id, outs) == published_while_connected(client_id, clients, actions),
    decreases actions.len(),
{
    if actions.len() > 0 {
        let next = clients_after_action(clients, actions[0]);
        lemma_clients_receive_what_is_published_while_connected(
            client_id,
            next,
            actions.drop_first(),
            outs.drop_first(),
        );
        match actions[0] {
            JustRateAction::BroadCastMessageToAllClients(message) => {
                lemma_texts_for_distinct(client_id, outs[0], message.payload@);
                assert(delivery_ids(outs[0]).contains(client_id) == clients.contains_key(client_id)) by {
                    assert(delivery_ids(outs[0]).to_set().contains(client_id) == delivery_ids(outs[0]).contains(client_id));
                }
            },
            _ => {
                assert(texts_for(client_id, outs[0]) =~= Seq::<Seq<char>>::empty());
            },
        }
    }
}

/// The connected clients, by id, with the handle through which each is
/// reached, and the number of subscribers that publishers are told about.
pub struct SubscriberRegistry<R = Responder> {
    clients: HashMap<u64, R>,
    subscriber_count: usize,
}

impl<R> SubscriberRegistry<R> {
    /// The connected clients, by id.
    pub closed spec fn clients(&self) -> Map<u64, R> {
        self.clients@
    }

    /// The subscriber count: connections minus disconnections.
    pub closed spec fn count(&self) -> nat {
        self.subscriber_count as nat
    }

    /// The subscriber count is the number of connected clients.
    pub open spec fn count_matches_clients(&self) -> bool {
        self.count() == self.clients().len()
    }

    /// Whether `action` can be applied without the count leaving `usize`.
    pub open spec fn can_apply(&self, action: JustRateAction<R>) -> bool {
        match action {
            JustRateAction::AddClient(_, _) => self.count() < usize::MAX,
            JustRateAction::RemoveClient(_) => self.count() > 0,
            JustRateAction::BroadCastMessageToAllClients(_) => true,
        }
    }

    /// A registry without clients.
    pub fn new() -> (registry: Self)
        ensures
            registry.clients() == Map::<u64, R>::empty(),
            registry.count() == 0,
    {
        SubscriberRegistry { clients: HashMap::new(), subscriber_count: 0 }
    }

    /// The subscriber count.
    pub fn subscriber_count(&self) -> (count: usize)
        ensures
            count == self.count(),
    {
        self.subscriber_count
    }

    /// Whether `action` can be applied without the count leaving `usize`.
    pub fn accepts(&self, action: &JustRateAction<R>) -> (accepted: bool)
        ensures
            accepted == self.can_apply(*action),
    {
        match action {
            JustRateAction::AddClient(_, _) => self.subscriber_count < usize::MAX,
            JustRateAction::RemoveClient(_) => self.subscriber_count > 0,
            JustRateAction::BroadCastMessageToAllClients(_) => true,
        }
    }

    /// Whether a client with this id is connected.
    pub fn is_connected(&self, client_id: u64) -> (connected: bool)
        ensures
            connected == self.clients().contains_key(client_id),
    {
        self.clients.contains_key(&client_id)
    }

    /// The handle of the client with this id, if it is connected.
    pub fn responder(&self, client_id: u64) -> (handle: Option<&R>)
        ensures
            handle is Some <==> self.clients().contains_key(client_id),
            handle matches Some(h) ==> *h == self.clients()[client_id],
    {
        self.clients.get(&client_id)
    }

    /// Registers a client that connected, replacing any client under the
    /// same id, and counts one more subscriber.
    pub fn add_client(&mut self, client_id: u64, responder: R)
        requires
            old(self).count() < usize::MAX,
        ensures
            final(self).clients() == old(self).clients().insert(client_id, responder),
            final(self).count() == old(self).count() + 1,
            old(self).count_matches_clients() && !old(self).clients().contains_key(client_id)
                ==> final(self).count_matches_clients(),
    {
        self.clients.insert(client_id, responder);
        self.subscriber_count = self.subscriber_count + 1;
    }

    /// Forgets a client that disconnected and counts one subscriber less.
    pub fn remove_client(&mut self, client_id: u64)
        requires
            old(self).count() > 0,
        ensures
            final(self).clients() == old(self).clients().remove(client_id),
            final(self).count() == old(self).count() - 1,
            old(self).count_matches_clients() && old(self).clients().contains_key(client_id)
                ==> final(self).count_matches_clients(),
    {
        self.clients.remove(&client_id);
        self.subscriber_count = self.subscriber_count - 1;
    }

    /// The texts that relay the message: its payload, once to every
    /// connected client.
    pub fn deliveries(&self, message: &PublisherMessage) -> (out: Vec<Delivery>)
        ensures
            relays_to_all(out@, self.clients().dom(), message.payload@),
            out@.len() == self.clients().len(),
    {
        let mut out: Vec<Delivery> = Vec::new();
        let ghost keys = spec_keys_iter(&self.clients).remaining();
        proof {
            axiom_spec_keys_iter(&self.clients);
        }
        for client_id in it: self.clients.keys()
            invariant
                it.seq() == keys,
                delivery_ids(out@) == it.seq().take(it.index() as int).unref(),
                forall|i: int| 0 <= i < out@.len() ==> (#[trigger] out@[i]).1@ == message.payload@,
        {
            let ghost before = out@;
            out.push((*client_id, message.payload.clone()));
            assert(delivery_ids(out@) =~= delivery_ids(before).push(*client_id));
            assert(it.seq().take(it.index() + 1).unref() =~= delivery_ids(out@));
        }
        assert(delivery_ids(out@) =~= keys.unref());
        out
    }

    /// Whenever a subscriber is counted a disconnection is accepted, in
    /// particular that of any connected client while the count matches the
    /// clients; a connection is accepted while the count is below
    /// `usize::MAX`; a payload is always accepted. Only a disconnection at a
    /// count of zero, or a connection at `usize::MAX`, is refused.
    pub proof fn lemma_accepted_actions(registry: Self, client_id: u64, handle: R, message: PublisherMessage)
        ensures
            registry.can_apply(JustRateAction::RemoveClient(client_id)) <==> registry.count() >= 1,
            registry.count_matches_clients() && registry.clients().dom().finite()
                && registry.clients().contains_key(client_id) ==> registry.can_apply(
                JustRateAction::RemoveClient(client_id),
            ),
            registry.can_apply(JustRateAction::AddClient(client_id, handle)) <==> registry.count()
                < usize::MAX,
            registry.can_apply(JustRateAction::BroadCastMessageToAllClients(message)),
    {
        if registry.clients().dom().finite() && registry.clients().contains_key(client_id) {
            vstd::set_lib::lemma_set_empty_equivalency_len(registry.clients().dom());
        }
    }

    /// Connecting a client under an id that is not connected, then
    /// disconnecting it, leaves the registry's clients and count as they were:
    /// `after` is what `remove_client` leaves of `middle`, which is what
    /// `add_client` left of `before`.
    pub proof fn lemma_disconnect_undoes_connect(
        before: Self,
        middle: Self,
        after: Self,
        client_id: u64,
        responder: R,
    )
        requires
            !before.clients().contains_key(client_id),
            middle.clients() == before.clients().insert(client_id, responder),
            middle.count() == before.count() + 1,
            after.clients() == middle.clients().remove(client_id),
            after.count() == middle.count() - 1,
        ensures
            after.clients() == before.clients(),
            after.count() == before.count(),
    {
        assert(after.clients() =~= before.clients());
    }

    /// Reacts to one action: a connection registers the client, a
    /// disconnection forgets it; neither sends anything. A payload changes
    /// nothing in the registry and is to be sent, once, to every connected
    /// client: the deliveries returned.
    pub fn apply(&mut self, action: JustRateAction<R>) -> (out: Vec<Delivery>)
        requires
            old(self).can_apply(action),
        ensures
            final(self).clients() == clients_after_action(old(self).clients(), action),
            final(self).count() == count_after_action(old(self).count() as int, action),
            step_delivers(old(self).clients(), action, out@),
            old(self).count_matches_clients() && well_formed_actions(old(self).clients(), seq![action])
                ==> final(self).count_matches_clients(),
    {
        match action {
            JustRateAction::AddClient(client_id, responder) => {
                self.add_client(client_id, responder);
                Vec::new()
            },
            JustRateAction::RemoveClient(client_id) => {
                self.remove_client(client_id);
                Vec::new()
            },
            JustRateAction::BroadCastMessageToAllClients(message) => self.deliveries(&message),
        }
    }
}

} // verus!
