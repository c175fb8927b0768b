//! The coordinator at work on its bus: it serves requests, announces who
//! joined, reacts to events and sends heartbeats, and publishes what each of
//! these calls for.

use crate::bus::Bus;
use crate::cluster::{
    cluster_view, follow_up, heartbeats_for, react, step, ClusterView, Leadership, Membership,
    Message, MessageView, PeerAddress,
};
use crate::protocol::{parse_line, replicated, response_to, serve, store_after};
use crate::store::{CommandView, Store};
use vstd::prelude::*;

verus! {

/// The time between two rounds of heartbeats, in seconds.
pub const HEARTBEAT_INTERVAL_SECONDS: u64 = 5;

/// The events that serving `request` puts on the bus: the command it
/// replicates, if it replicates one.
pub open spec fn published_for(request: Option<CommandView>) -> Seq<MessageView> {
    match replicated(request) {
        Some(command) => seq![MessageView::Command(command)],
        None => Seq::empty(),
    }
}

/// The events that `event` puts on the bus when it meets `state`.
pub open spec fn published_after(state: ClusterView, event: MessageView) -> Seq<MessageView> {
    match follow_up(state, event) {
        Some(next) => seq![next],
        None => Seq::empty(),
    }
}

/// Serves one request line against the store, publishes the change, if the
/// request made one, and returns the response line.
pub fn handle_request(line: &str, store: &mut Store, bus: &mut Bus) -> (response: String)
    ensures
        response@ == response_to(old(store)@, parse_line(line@)),
        final(store)@ == store_after(old(store)@, parse_line(line@)),
        final(bus)@ == old(bus)@ + published_for(parse_line(line@)),
{
    let reply = serve(line, store);
    match reply.replicate {
        Some(command) => {
            bus.publish(Message::Command(command));
            assert(bus@ =~= old(bus)@ + published_for(parse_line(line@)));
        },
        None => {
            assert(bus@ =~= old(bus)@ + published_for(parse_line(line@)));
        },
    }
    reply.response
}

/// Announces that a connection from `address` was accepted.
pub fn announce_join(address: PeerAddress, bus: &mut Bus)
    ensures
        final(bus)@ == old(bus)@.push(MessageView::NewNode(address@)),
{
    bus.publish(Message::NewNode(address));
}

/// Applies one event from the bus to the state and publishes the event that
/// it gives rise to, if any.
pub fn process_event(
    event: Message,
    store: &mut Store,
    members: &mut Membership,
    leader: &mut Leadership,
    bus: &mut Bus,
)
    ensures
        cluster_view(*final(store), *final(members), *final(leader)) == step(
            cluster_view(*old(store), *old(members), *old(leader)),
            event@,
        ),
        final(bus)@ == old(bus)@ + published_after(
            cluster_view(*old(store), *old(members), *old(leader)),
            event@,
        ),
{
    let ghost before = cluster_view(*store, *members, *leader);
    match react(event, store, members, leader) {
        Some(next) => {
            bus.publish(next);
            assert(bus@ =~= old(bus)@ + published_after(before, event@));
        },
        None => {
            assert(bus@ =~= old(bus)@ + published_after(before, event@));
        },
    }
}

/// What a subscriber gets when it asks the bus for the next event.
#[derive(Debug, PartialEq, Eq)]
pub enum Delivery {
    /// The next event.
    Event(Message),
    /// The subscriber fell behind, and this many of the oldest events that
    /// it had not read yet are lost.
    Lagged(u64),
    /// The bus is closed: there will be no more events.
    Closed,
}

/// What a `Delivery` stands for.
pub enum DeliveryView {
    Event(MessageView),
    Lagged(u64),
    Closed,
}

impl View for Delivery {
    type V = DeliveryView;

    open spec fn view(&self) -> DeliveryView {
        match self {
            Delivery::Event(event) => DeliveryView::Event(event@),
            Delivery::Lagged(missed) => DeliveryView::Lagged(*missed),
            Delivery::Closed => DeliveryView::Closed,
        }
    }
}

/// The state after `delivery`: an event acts on it, a gap and the end of
/// the bus leave it as it is.
pub open spec fn state_after(state: ClusterView, delivery: DeliveryView) -> ClusterView {
    match delivery {
        DeliveryView::Event(event) => step(state, event),
        _ => state,
    }
}

/// The events that `delivery` puts on the bus when it meets `state`.
pub open spec fn published_on(state: ClusterView, delivery: DeliveryView) -> Seq<MessageView> {
    match delivery {
        DeliveryView::Event(event) => published_after(state, event),
        _ => Seq::empty(),
    }
}

/// One turn of the event loop: takes what the bus delivered, processes it
/// if it is an event, and says whether the loop goes on. A gap is passed
/// over; only the end of the bus ends the loop.
pub fn consume(
    delivery: Delivery,
    store: &mut Store,
    members: &mut Membership,
    leader: &mut Leadership,
    bus: &mut Bus,
) -> (go_on: bool)
    ensures
        go_on == !(delivery@ is Closed),
        cluster_view(*final(store), *final(members), *final(leader)) == state_after(
            cluster_view(*old(store), *old(members), *old(leader)),
            delivery@,
        ),
        final(bus)@ == old(bus)@ + published_on(
            cluster_view(*old(store), *old(members), *old(leader)),
            delivery@,
        ),
{
    match delivery {
        Delivery::Event(event) => {
            process_event(event, store, members, leader, bus);
            true
        },
        Delivery::Lagged(_) => {
            assert(bus@ + Seq::<MessageView>::empty() =~= bus@);
            true
        },
        Delivery::Closed => {
            assert(bus@ + Seq::<MessageView>::empty() =~= bus@);
            false
        },
    }
}

/// Publishes one heartbeat for each member, in order.
pub fn emit_heartbeats(members: &Membership, bus: &mut Bus)
    ensures
        final(bus)@ == old(bus)@ + heartbeats_for(members@),
{
    bus.publish_all(members.heartbeats());
}

} // verus!
