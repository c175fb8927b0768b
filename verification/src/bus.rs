//! The message bus: a broadcast channel that carries every event to every
//! subscriber. Publishing never blocks and never fails; an event published
//! while nobody is subscribed is dropped.

use crate::cluster::{Message, MessageView};
use tokio::sync::broadcast::Sender;
use vstd::prelude::*;

verus! {

/// How many events the bus holds for a subscriber that lags behind.
pub const BUS_CAPACITY: usize = 1024;

/// The sending half of tokio's broadcast channel.
#[verifier::external_type_specification]
#[verifier::external_body]
#[verifier::reject_recursive_types(T)]
pub struct ExSender<T>(tokio::sync::broadcast::Sender<T>);

/// Calls `tokio::sync::broadcast::Sender::send`, which hands `message` to
/// every receiver subscribed at that moment and does not block. The result
/// is the number of those receivers, or `None` where there was none; all
/// that is claimed is that a number, when given, is at least one.
#[verifier::external_body]
fn send(sender: &Sender<Message>, message: Message) -> (receivers: Option<usize>)
    ensures
        receivers matches Some(count) ==> count >= 1,
{
    sender.send(message).ok()
}

/// A publisher's handle on the bus. It keeps account of what was published
/// through it.
pub struct Bus {
    sender: Sender<Message>,
    published: Ghost<Seq<MessageView>>,
}

impl View for Bus {
    type V = Seq<MessageView>;

    /// The events published through this handle so far, in order.
    closed spec fn view(&self) -> Seq<MessageView> {
        self.published@
    }
}

impl Bus {
    /// A handle that publishes through `sender` and has published nothing
    /// yet.
    pub fn new(sender: Sender<Message>) -> (bus: Self)
        ensures
            bus@ == Seq::<MessageView>::empty(),
    {
        Bus { sender, published: Ghost(Seq::empty()) }
    }

    /// Publishes `message`, and says whether anybody was subscribed to get
    /// it. If nobody was, the message is dropped: that is no failure.
    pub fn publish(&mut self, message: Message) -> (heard: bool)
        ensures
            final(self)@ == old(self)@.push(message@),
    {
        self.published = Ghost(self.published@.push(message@));
        send(&self.sender, message).is_some()
    }

    /// Publishes `messages` one after the other.
    pub fn publish_all(&mut self, messages: Vec<Message>)
        ensures
            final(self)@ == old(self)@ + messages@.map_values(|message: Message| message@),
    {
        let ghost all = messages@.map_values(|message: Message| message@);
        let count: usize = messages.len();
        proof {
            assert(self@ + all.take(0) =~= self@);
        }
        for message in it: messages.into_iter()
            invariant
                it.seq().len() == count,
                all == it.seq().map_values(|message: Message| message@),
                self@ == old(self)@ + all.take(it.index() as int),
        {
            proof {
                assert(all.take(it.index() + 1) =~= all.take(it.index() as int).push(message@));
            }
            self.publish(message);
        }
        proof {
            assert(all.take(count as int) =~= all);
        }
    }
}

} // verus!
