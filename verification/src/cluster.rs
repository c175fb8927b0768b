//! Membership, leadership and the events that drive them.
//!
//! Every member of the cluster is known by its address. Members join when
//! their connection is accepted and leave only when it fails. The leader is
//! chosen bully-style: a candidate takes over when there is no leader or when
//! its address, read as text, sorts strictly after the leader's.

use crate::store::{apply, handle_command, Command, CommandView, Store};
use crate::text::{
    law_order_asymmetric, law_order_irreflexive, law_order_total, law_order_transitive,
    sorts_before, text_sorts_before,
};
use vstd::prelude::*;
use vstd::std_specs::cmp::PartialEqSpecImpl;
use vstd::string::*;

verus! {

/// The endpoint of a node, held in its textual form. Two addresses are equal
/// when their texts are, and are ordered as their texts are.
#[derive(Debug)]
pub struct PeerAddress {
    text: String,
}

impl View for PeerAddress {
    type V = Seq<char>;

    closed spec fn view(&self) -> Seq<char> {
        self.text@
    }
}

impl Clone for PeerAddress {
    fn clone(&self) -> (copy: Self)
        ensures
            copy == *self,
    {
        PeerAddress { text: self.text.clone() }
    }
}

impl PartialEq for PeerAddress {
    fn eq(&self, other: &Self) -> (same: bool) {
        self.text == other.text
    }
}

impl Eq for PeerAddress {

}

impl PartialEqSpecImpl for PeerAddress {
    open spec fn obeys_eq_spec() -> bool {
        true
    }

    open spec fn eq_spec(&self, other: &Self) -> bool {
        self@ == other@
    }
}

impl PeerAddress {
    /// The address whose textual form is `text`.
    pub fn new(text: String) -> (address: Self)
        ensures
            address@ == text@,
    {
        PeerAddress { text }
    }

    /// The textual form.
    pub fn as_str(&self) -> (text: &str)
        ensures
            text@ == self@,
    {
        self.text.as_str()
    }

    /// Whether this address sorts strictly after `other`.
    pub fn outranks(&self, other: &PeerAddress) -> (higher: bool)
        ensures
            higher == sorts_before(other@, self@),
    {
        text_sorts_before(other.text.as_str(), self.text.as_str())
    }
}

/// An event on the bus.
#[derive(Debug, PartialEq, Eq)]
pub enum Message {
    /// A client changed the store; every consumer applies the same change.
    Command(Command),
    /// A connection from this address was accepted.
    NewNode(PeerAddress),
    /// This address stands for election.
    Election(PeerAddress),
    /// This address has been made leader.
    Leader(PeerAddress),
    /// A periodic sign of life on behalf of this member.
    Heartbeat(PeerAddress),
}

/// What a `Message` stands for.
pub enum MessageView {
    Command(CommandView),
    NewNode(Seq<char>),
    Election(Seq<char>),
    Leader(Seq<char>),
    Heartbeat(Seq<char>),
}

impl View for Message {
    type V = MessageView;

    open spec fn view(&self) -> MessageView {
        match self {
            Message::Command(command) => MessageView::Command(command@),
            Message::NewNode(address) => MessageView::NewNode(address@),
            Message::Election(address) => MessageView::Election(address@),
            Message::Leader(address) => MessageView::Leader(address@),
            Message::Heartbeat(address) => MessageView::Heartbeat(address@),
        }
    }
}

impl Clone for Message {
    fn clone(&self) -> (copy: Self)
        ensures
            copy == *self,
    {
        match self {
            Message::Command(command) => Message::Command(command.clone()),
            Message::NewNode(address) => Message::NewNode(address.clone()),
            Message::Election(address) => Message::Election(address.clone()),
            Message::Leader(address) => Message::Leader(address.clone()),
            Message::Heartbeat(address) => Message::Heartbeat(address.clone()),
        }
    }
}

/// What an optional message stands for.
pub open spec fn message_view(message: Option<Message>) -> Option<MessageView> {
    match message {
        Some(message) => Some(message@),
        None => None,
    }
}

/// The known members, in the order in which they joined. An address that
/// joins twice is listed twice.
pub struct Membership {
    nodes: Vec<PeerAddress>,
}

impl View for Membership {
    type V = Seq<Seq<char>>;

    closed spec fn view(&self) -> Seq<Seq<char>> {
        self.nodes@.map_values(|address: PeerAddress| address@)
    }
}

/// `members` without every entry equal to `address`.
pub open spec fn without(members: Seq<Seq<char>>, address: Seq<char>) -> Seq<Seq<char>> {
    members.filter(|member: Seq<char>| member != address)
}

/// The heartbeats owed for `members`: one for each entry, in order.
pub open spec fn heartbeats_for(members: Seq<Seq<char>>) -> Seq<MessageView> {
    members.map_values(|member: Seq<char>| MessageView::Heartbeat(member))
}

impl Membership {
    /// A registry without members.
    pub fn new() -> (members: Self)
        ensures
            members@ == Seq::<Seq<char>>::empty(),
    {
        let members = Membership { nodes: Vec::new() };
        assert(members@ =~= Seq::<Seq<char>>::empty());
        members
    }

    /// The number of entries.
    pub fn len(&self) -> (count: usize)
        ensures
            count == self@.len(),
    {
        self.nodes.len()
    }

    /// Whether `address` is listed.
    pub fn contains(&self, address: &PeerAddress) -> (listed: bool)
        ensures
            listed == self@.contains(address@),
    {
        let mut i: usize = 0;
        while i < self.nodes.len()
            invariant
                i <= self.nodes@.len(),
                forall|j: int| 0 <= j < i ==> self@[j] != address@,
            decreases self.nodes@.len() - i,
        {
            if self.nodes[i] == *address {
                assert(self@[i as int] == address@);
                return true;
            }
            i += 1;
        }
        false
    }

    /// The entries, in order.
    pub fn addresses(&self) -> (list: Vec<PeerAddress>)
        ensures
            list@.map_values(|address: PeerAddress| address@) == self@,
    {
        let list = self.nodes.clone();
        assert(list@.map_values(|address: PeerAddress| address@) =~= self@);
        list
    }

    /// Appends `address`.
    pub fn join(&mut self, address: PeerAddress)
        ensures
            final(self)@ == old(self)@.push(address@),
    {
        self.nodes.push(address);
        assert(self@ =~= old(self)@.push(address@));
    }

    /// Removes every entry equal to `address`; the others keep their order.
    pub fn remove(&mut self, address: &PeerAddress)
        ensures
            final(self)@ == without(old(self)@, address@),
    {
        let ghost keep = |member: Seq<char>| member != address@;
        let mut kept: Vec<PeerAddress> = Vec::new();
        let mut i: usize = 0;
        proof {
            assert(self@.take(0) =~= Seq::<Seq<char>>::empty());
        }
        while i < self.nodes.len()
            invariant
                i <= self.nodes@.len(),
                keep == |member: Seq<char>| member != address@,
                kept@.map_values(|address: PeerAddress| address@) == self@.take(i as int).filter(
                    keep,
                ),
            decreases self.nodes@.len() - i,
        {
            proof {
                assert(self@.take(i + 1) =~= self@.take(i as int).push(self@[i as int]));
                self@.take(i as int).lemma_filter_push(self@[i as int], keep);
            }
            if self.nodes[i] != *address {
                let ghost before = kept@;
                kept.push(self.nodes[i].clone());
                assert(kept@.map_values(|address: PeerAddress| address@) =~= before.map_values(
                    |address: PeerAddress| address@,
                ).push(self@[i as int]));
            }
            i += 1;
        }
        proof {
            assert(self@.take(i as int) =~= self@);
        }
        self.nodes = kept;
    }

    /// One heartbeat for each entry, in order.
    pub fn heartbeats(&self) -> (beats: Vec<Message>)
        ensures
            beats@.map_values(|beat: Message| beat@) == heartbeats_for(self@),
    {
        let mut beats: Vec<Message> = Vec::new();
        let mut i: usize = 0;
        while i < self.nodes.len()
            invariant
                i <= self.nodes@.len(),
                beats@.len() == i,
                forall|j: int| 0 <= j < i ==> (#[trigger] beats@[j])@ == MessageView::Heartbeat(self@[j]),
            decreases self.nodes@.len() - i,
        {
            beats.push(Message::Heartbeat(self.nodes[i].clone()));
            i += 1;
        }
        assert(beats@.map_values(|beat: Message| beat@) =~= heartbeats_for(self@));
        beats
    }
}

/// Settles the registry when the connection from `address` has ended: a
/// connection that failed takes its address out; one that ran its course
/// leaves the registry as it is.
pub fn connection_ended(members: &mut Membership, address: &PeerAddress, failed: bool)
    ensures
        failed ==> final(members)@ == without(old(members)@, address@),
        !failed ==> final(members)@ == old(members)@,
{
    if failed {
        members.remove(address);
    }
}

/// Whether `candidate` takes over from `leader`: when there is no leader, or
/// when the candidate sorts strictly after it.
pub open spec fn accepts(leader: Option<Seq<char>>, candidate: Seq<char>) -> bool {
    match leader {
        None => true,
        Some(current) => sorts_before(current, candidate),
    }
}

/// The leader after `candidate` has stood for election.
pub open spec fn after_proposal(leader: Option<Seq<char>>, candidate: Seq<char>) -> Option<
    Seq<char>,
> {
    if accepts(leader, candidate) {
        Some(candidate)
    } else {
        leader
    }
}

/// The leader after the candidates have stood for election one after the
/// other.
pub open spec fn after_proposals(
    leader: Option<Seq<char>>,
    candidates: Seq<Seq<char>>,
) -> Option<Seq<char>>
    decreases candidates.len(),
{
    if candidates.len() == 0 {
        leader
    } else {
        after_proposal(after_proposals(leader, candidates.drop_last()), candidates.last())
    }
}

/// The current leader, if any. It is empty until a first candidate stands.
pub struct Leadership {
    leader: Option<PeerAddress>,
}

impl View for Leadership {
    type V = Option<Seq<char>>;

    closed spec fn view(&self) -> Option<Seq<char>> {
        match self.leader {
            Some(address) => Some(address@),
            None => None,
        }
    }
}

impl Leadership {
    /// A cell without a leader.
    pub fn new() -> (cell: Self)
        ensures
            cell@ is None,
    {
        Leadership { leader: None }
    }

    /// Whether there is no leader.
    pub fn is_vacant(&self) -> (vacant: bool)
        ensures
            vacant == (self@ is None),
    {
        self.leader.is_none()
    }

    /// The leader, if any.
    pub fn current(&self) -> (leader: Option<PeerAddress>)
        ensures
            match leader {
                Some(address) => self@ == Some(address@),
                None => self@ is None,
            },
    {
        match &self.leader {
            Some(address) => Some(address.clone()),
            None => None,
        }
    }

    /// Lets `candidate` stand for election. It becomes leader if there is
    /// none or if it outranks the one there is; the result says whether it
    /// did.
    pub fn propose(&mut self, candidate: PeerAddress) -> (elected: bool)
        ensures
            elected == accepts(old(self)@, candidate@),
            final(self)@ == after_proposal(old(self)@, candidate@),
    {
        let elected: bool = match &self.leader {
            None => true,
            Some(current) => candidate.outranks(current),
        };
        if elected {
            self.leader = Some(candidate);
        }
        elected
    }

    /// Makes `address` the leader, whoever was.
    pub fn announce(&mut self, address: PeerAddress)
        ensures
            final(self)@ == Some(address@),
    {
        self.leader = Some(address);
    }
}

/// The state that the events act on.
pub struct ClusterView {
    pub store: Map<Seq<char>, Seq<char>>,
    pub members: Seq<Seq<char>>,
    pub leader: Option<Seq<char>>,
}

/// The state after `event`.
pub open spec fn step(state: ClusterView, event: MessageView) -> ClusterView {
    match event {
        MessageView::Command(command) => ClusterView {
            store: apply(state.store, command),
            ..state
        },
        MessageView::NewNode(address) => ClusterView {
            members: state.members.push(address),
            ..state
        },
        MessageView::Election(address) => ClusterView {
            leader: after_proposal(state.leader, address),
            ..state
        },
        MessageView::Leader(address) => ClusterView { leader: Some(address), ..state },
        MessageView::Heartbeat(_) => state,
    }
}

/// The event that `event` gives rise to in `state`, if any: a node that
/// joins a cluster without a leader stands for election, and a candidate
/// that is accepted is announced as leader.
pub open spec fn follow_up(state: ClusterView, event: MessageView) -> Option<MessageView> {
    match event {
        MessageView::NewNode(address) => if state.leader is None {
            Some(MessageView::Election(address))
        } else {
            None
        },
        MessageView::Election(address) => if accepts(state.leader, address) {
            Some(MessageView::Leader(address))
        } else {
            None
        },
        _ => None,
    }
}

/// The state as a whole.
pub open spec fn cluster_view(store: Store, members: Membership, leader: Leadership) -> ClusterView {
    ClusterView { store: store@, members: members@, leader: leader@ }
}

/// Applies one event to the state and returns the event to publish next, if
/// the event calls for one.
pub fn react(
    event: Message,
    store: &mut Store,
    members: &mut Membership,
    leader: &mut Leadership,
) -> (next: Option<Message>)
    ensures
        cluster_view(*final(store), *final(members), *final(leader)) == step(
            cluster_view(*old(store), *old(members), *old(leader)),
            event@,
        ),
        message_view(next) == follow_up(
            cluster_view(*old(store), *old(members), *old(leader)),
            event@,
        ),
        event@ is Heartbeat ==> final(store)@ == old(store)@ && final(leader)@ == old(leader)@
            && final(members)@ == old(members)@,
{
    match event {
        Message::Command(command) => {
            handle_command(command, store);
            None
        },
        Message::NewNode(address) => {
            members.join(address.clone());
            if leader.is_vacant() {
                Some(Message::Election(address))
            } else {
                None
            }
        },
        Message::Election(address) => {
            if leader.propose(address.clone()) {
                Some(Message::Leader(address))
            } else {
                None
            }
        },
        Message::Leader(address) => {
            leader.announce(address);
            None
        },
        Message::Heartbeat(_) => None,
    }
}

/// The election does not depend on the order of arrival: when two
/// candidates stand in a cluster without a leader, the one whose address
/// sorts after the other's is leader in the end, whichever stood first.
pub proof fn law_election_order_independent(
    state: ClusterView,
    lower: Seq<char>,
    higher: Seq<char>,
)
    requires
        state.leader is None,
        sorts_before(lower, higher),
    ensures
        step(step(state, MessageView::Election(lower)), MessageView::Election(higher)).leader
            == Some(higher),
        step(step(state, MessageView::Election(higher)), MessageView::Election(lower)).leader
            == Some(higher),
{
    law_order_asymmetric(lower, higher);
}

/// When candidates stand one after the other in a cluster without a
/// leader, the leader in the end is one of them, and none of them sorts
/// after it.
pub proof fn law_election_elects_highest(candidates: Seq<Seq<char>>)
    requires
        candidates.len() > 0,
    ensures
        after_proposals(None, candidates) matches Some(leader) && candidates.contains(leader)
            && forall|i: int|
            0 <= i < candidates.len() ==> !sorts_before(leader, #[trigger] candidates[i]),
    decreases candidates.len(),
{
    let earlier = candidates.drop_last();
    let last = candidates.last();
    law_order_irreflexive(last);
    if candidates.len() == 1 {
        assert(after_proposals(None, earlier) == None::<Seq<char>>);
    } else {
        law_election_elects_highest(earlier);
        let held = after_proposals(None, earlier)->0;
        assert(candidates.contains(held)) by {
            let i = choose|i: int| 0 <= i < earlier.len() && earlier[i] == held;
            assert(candidates[i] == held);
        }
        if sorts_before(held, last) {
            assert forall|i: int| 0 <= i < candidates.len() implies !sorts_before(
                last,
                #[trigger] candidates[i],
            ) by {
                if i < earlier.len() && sorts_before(last, candidates[i]) {
                    law_order_transitive(held, last, candidates[i]);
                    assert(earlier[i] == candidates[i]);
                }
            }
        } else {
            assert forall|i: int| 0 <= i < candidates.len() implies !sorts_before(
                held,
                #[trigger] candidates[i],
            ) by {
                if i < earlier.len() {
                    assert(earlier[i] == candidates[i]);
                }
            }
        }
    }
}

/// The outcome of an election depends on who stood, not on the order in
/// which they did: two runs with the same candidates end with the same
/// leader.
pub proof fn law_election_ignores_order(first: Seq<Seq<char>>, second: Seq<Seq<char>>)
    requires
        first.len() > 0,
        forall|address: Seq<char>| first.contains(address) <==> second.contains(address),
    ensures
        after_proposals(None, first) == after_proposals(None, second),
{
    assert(second.contains(first[0]));
    law_election_elects_highest(first);
    law_election_elects_highest(second);
    let one = after_proposals(None, first)->0;
    let other = after_proposals(None, second)->0;
    assert(second.contains(one));
    assert(first.contains(other));
    if one != other {
        law_order_total(one, other);
    }
}

/// Without an election or an announcement a cluster stays without a
/// leader.
pub proof fn law_leader_needs_election(state: ClusterView, event: MessageView)
    requires
        state.leader is None,
        !(event is Election),
        !(event is Leader),
    ensures
        step(state, event).leader is None,
{
}

/// A heartbeat changes nothing: not the store, not the leader, not the
/// members; and it gives rise to no further event.
pub proof fn law_heartbeat_changes_nothing(state: ClusterView, address: Seq<char>)
    ensures
        step(state, MessageView::Heartbeat(address)) == state,
        follow_up(state, MessageView::Heartbeat(address)) is None,
{
}

/// The line that the event loop shows for `event`, if it shows one.
pub open spec fn status_of(event: MessageView) -> Option<Seq<char>> {
    match event {
        MessageView::NewNode(address) => Some("New node joined: "@ + address),
        MessageView::Leader(address) => Some("New leader elected: "@ + address),
        MessageView::Heartbeat(address) => Some("Heartbeat received from node: "@ + address),
        _ => None,
    }
}

/// The line that the event loop shows for `event`, if it shows one.
pub fn status_line(event: &Message) -> (line: Option<String>)
    ensures
        match line {
            Some(text) => status_of(event@) == Some(text@),
            None => status_of(event@) is None,
        },
{
    match event {
        Message::NewNode(address) => Some(
            String::from_str("New node joined: ").concat(address.as_str()),
        ),
        Message::Leader(address) => Some(
            String::from_str("New leader elected: ").concat(address.as_str()),
        ),
        Message::Heartbeat(address) => Some(
            String::from_str("Heartbeat received from node: ").concat(address.as_str()),
        ),
        _ => None,
    }
}

} // verus!
