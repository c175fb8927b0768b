use kv_cluster::cluster::{
    connection_ended, react, status_line, Leadership, Membership, Message, PeerAddress,
};
use kv_cluster::store::{Command, Store};

fn addr(text: &str) -> PeerAddress {
    PeerAddress::new(text.to_string())
}

fn texts(members: &Membership) -> Vec<String> {
    members.addresses().iter().map(|a| a.as_str().to_string()).collect()
}

struct Cluster {
    store: Store,
    members: Membership,
    leader: Leadership,
}

fn cluster() -> Cluster {
    Cluster { store: Store::new(), members: Membership::new(), leader: Leadership::new() }
}

fn feed(cluster: &mut Cluster, event: Message) -> Option<Message> {
    react(event, &mut cluster.store, &mut cluster.members, &mut cluster.leader)
}

#[test]
fn address_keeps_its_text() {
    let a = addr("127.0.0.1:8080");
    assert_eq!(a.as_str(), "127.0.0.1:8080");
    assert_eq!(a.clone(), a);
    assert_eq!(a, addr("127.0.0.1:8080"));
    assert_ne!(a, addr("127.0.0.1:8081"));
}

#[test]
fn address_rank_is_textual_not_numeric() {
    assert!(addr("127.0.0.1:9000").outranks(&addr("127.0.0.1:10000")));
    assert!(!addr("127.0.0.1:10000").outranks(&addr("127.0.0.1:9000")));
    assert!(addr("10.0.0.2:1").outranks(&addr("10.0.0.1:9")));
    assert!(!addr("a").outranks(&addr("a")));
}

#[test]
fn membership_starts_empty() {
    let members = Membership::new();
    assert_eq!(members.len(), 0);
    assert!(texts(&members).is_empty());
    assert!(!members.contains(&addr("a")));
    assert!(members.heartbeats().is_empty());
}

#[test]
fn members_are_kept_in_order_of_arrival_with_duplicates() {
    let mut members = Membership::new();
    members.join(addr("b"));
    members.join(addr("a"));
    members.join(addr("b"));
    assert_eq!(members.len(), 3);
    assert_eq!(texts(&members), vec!["b", "a", "b"]);
    assert!(members.contains(&addr("a")));
    assert!(members.contains(&addr("b")));
    assert!(!members.contains(&addr("c")));
}

#[test]
fn remove_takes_out_every_equal_entry() {
    let mut members = Membership::new();
    for text in ["b", "a", "b", "c", "b"] {
        members.join(addr(text));
    }
    members.remove(&addr("b"));
    assert_eq!(texts(&members), vec!["a", "c"]);
    members.remove(&addr("b"));
    assert_eq!(texts(&members), vec!["a", "c"]);
    members.remove(&addr("c"));
    assert_eq!(texts(&members), vec!["a"]);
    members.remove(&addr("a"));
    assert_eq!(members.len(), 0);
}

#[test]
fn failed_connection_leaves_the_registry() {
    let mut members = Membership::new();
    members.join(addr("a"));
    members.join(addr("b"));
    connection_ended(&mut members, &addr("a"), true);
    assert_eq!(texts(&members), vec!["b"]);
    assert!(!members.contains(&addr("a")));
}

#[test]
fn completed_connection_stays_in_the_registry() {
    let mut members = Membership::new();
    members.join(addr("a"));
    members.join(addr("b"));
    connection_ended(&mut members, &addr("a"), false);
    assert_eq!(texts(&members), vec!["a", "b"]);
}

#[test]
fn one_heartbeat_for_each_member_in_order() {
    let mut members = Membership::new();
    members.join(addr("b"));
    members.join(addr("a"));
    members.join(addr("b"));
    assert_eq!(
        members.heartbeats(),
        vec![
            Message::Heartbeat(addr("b")),
            Message::Heartbeat(addr("a")),
            Message::Heartbeat(addr("b")),
        ]
    );
}

#[test]
fn leadership_starts_vacant() {
    let leader = Leadership::new();
    assert!(leader.is_vacant());
    assert_eq!(leader.current(), None);
}

#[test]
fn first_candidate_is_elected() {
    let mut leader = Leadership::new();
    assert!(leader.propose(addr("a")));
    assert!(!leader.is_vacant());
    assert_eq!(leader.current(), Some(addr("a")));
}

#[test]
fn only_a_higher_candidate_takes_over() {
    let mut leader = Leadership::new();
    assert!(leader.propose(addr("m")));
    assert!(!leader.propose(addr("a")));
    assert_eq!(leader.current(), Some(addr("m")));
    assert!(!leader.propose(addr("m")));
    assert_eq!(leader.current(), Some(addr("m")));
    assert!(leader.propose(addr("z")));
    assert_eq!(leader.current(), Some(addr("z")));
}

#[test]
fn announcement_sets_the_leader_whoever_was() {
    let mut leader = Leadership::new();
    leader.announce(addr("z"));
    assert_eq!(leader.current(), Some(addr("z")));
    leader.announce(addr("a"));
    assert_eq!(leader.current(), Some(addr("a")));
}

#[test]
fn election_does_not_depend_on_arrival() {
    let low = "127.0.0.1:10000";
    let high = "127.0.0.1:9000";
    let mut first = cluster();
    assert_eq!(feed(&mut first, Message::Election(addr(low))), Some(Message::Leader(addr(low))));
    assert_eq!(feed(&mut first, Message::Election(addr(high))), Some(Message::Leader(addr(high))));
    assert_eq!(first.leader.current(), Some(addr(high)));
    let mut second = cluster();
    assert_eq!(feed(&mut second, Message::Election(addr(high))), Some(Message::Leader(addr(high))));
    assert_eq!(feed(&mut second, Message::Election(addr(low))), None);
    assert_eq!(second.leader.current(), Some(addr(high)));
}

#[test]
fn highest_of_many_candidates_leads_in_any_order() {
    let orders = [
        ["10.0.0.1:80", "10.0.0.2:80", "10.0.0.10:80", "9.0.0.1:80"],
        ["9.0.0.1:80", "10.0.0.10:80", "10.0.0.2:80", "10.0.0.1:80"],
        ["10.0.0.2:80", "9.0.0.1:80", "10.0.0.1:80", "10.0.0.10:80"],
        ["10.0.0.10:80", "10.0.0.1:80", "9.0.0.1:80", "10.0.0.2:80"],
    ];
    for order in orders {
        let mut c = cluster();
        for text in order {
            feed(&mut c, Message::Election(addr(text)));
        }
        assert_eq!(c.leader.current(), Some(addr("9.0.0.1:80")));
    }
}

#[test]
fn joining_a_leaderless_cluster_starts_an_election() {
    let mut c = cluster();
    assert_eq!(feed(&mut c, Message::NewNode(addr("a"))), Some(Message::Election(addr("a"))));
    assert_eq!(texts(&c.members), vec!["a"]);
    assert_eq!(c.leader.current(), None);
    assert_eq!(feed(&mut c, Message::NewNode(addr("b"))), Some(Message::Election(addr("b"))));
    assert_eq!(texts(&c.members), vec!["a", "b"]);
}

#[test]
fn joining_a_led_cluster_starts_no_election() {
    let mut c = cluster();
    assert_eq!(feed(&mut c, Message::Leader(addr("a"))), None);
    assert_eq!(feed(&mut c, Message::NewNode(addr("z"))), None);
    assert_eq!(texts(&c.members), vec!["z"]);
    assert_eq!(c.leader.current(), Some(addr("a")));
}

#[test]
fn join_election_announcement_chain() {
    let mut c = cluster();
    let election = feed(&mut c, Message::NewNode(addr("n1"))).expect("an election");
    let announcement = feed(&mut c, election).expect("an announcement");
    assert_eq!(announcement, Message::Leader(addr("n1")));
    assert_eq!(feed(&mut c, announcement), None);
    assert_eq!(c.leader.current(), Some(addr("n1")));
    assert_eq!(texts(&c.members), vec!["n1"]);
}

#[test]
fn late_announcement_of_a_lower_address_still_sets_the_leader() {
    let mut c = cluster();
    feed(&mut c, Message::Election(addr("z")));
    assert_eq!(feed(&mut c, Message::Leader(addr("a"))), None);
    assert_eq!(c.leader.current(), Some(addr("a")));
}

#[test]
fn heartbeat_changes_nothing() {
    let mut c = cluster();
    c.store.write("k".to_string(), "v".to_string());
    c.members.join(addr("a"));
    c.leader.announce(addr("a"));
    assert_eq!(feed(&mut c, Message::Heartbeat(addr("z"))), None);
    assert_eq!(feed(&mut c, Message::Heartbeat(addr("a"))), None);
    assert_eq!(c.store.read("k"), Some("v".to_string()));
    assert_eq!(c.store.read("z"), None);
    assert_eq!(c.leader.current(), Some(addr("a")));
    assert_eq!(texts(&c.members), vec!["a"]);
}

#[test]
fn heartbeat_in_an_empty_cluster_elects_nobody() {
    let mut c = cluster();
    assert_eq!(feed(&mut c, Message::Heartbeat(addr("a"))), None);
    assert!(c.leader.is_vacant());
    assert_eq!(c.members.len(), 0);
}

#[test]
fn replicated_commands_reach_the_store() {
    let mut c = cluster();
    let put = Command::Put("k".to_string(), "v".to_string());
    assert_eq!(feed(&mut c, Message::Command(put.clone())), None);
    assert_eq!(feed(&mut c, Message::Command(put)), None);
    assert_eq!(c.store.read("k"), Some("v".to_string()));
    assert_eq!(feed(&mut c, Message::Command(Command::Get("k".to_string()))), None);
    assert_eq!(c.store.read("k"), Some("v".to_string()));
    assert_eq!(feed(&mut c, Message::Command(Command::Del("k".to_string()))), None);
    assert_eq!(feed(&mut c, Message::Command(Command::Del("k".to_string()))), None);
    assert_eq!(c.store.read("k"), None);
    assert_eq!(c.members.len(), 0);
    assert!(c.leader.is_vacant());
}

#[test]
fn status_lines() {
    assert_eq!(
        status_line(&Message::NewNode(addr("127.0.0.1:5000"))),
        Some("New node joined: 127.0.0.1:5000".to_string())
    );
    assert_eq!(
        status_line(&Message::Leader(addr("127.0.0.1:5000"))),
        Some("New leader elected: 127.0.0.1:5000".to_string())
    );
    assert_eq!(
        status_line(&Message::Heartbeat(addr("127.0.0.1:5000"))),
        Some("Heartbeat received from node: 127.0.0.1:5000".to_string())
    );
    assert_eq!(status_line(&Message::Election(addr("127.0.0.1:5000"))), None);
    assert_eq!(status_line(&Message::Command(Command::Get("k".to_string()))), None);
}

#[test]
fn message_clone_is_equal() {
    for message in [
        Message::Command(Command::Put("k".to_string(), "v".to_string())),
        Message::NewNode(addr("a")),
        Message::Election(addr("a")),
        Message::Leader(addr("a")),
        Message::Heartbeat(addr("a")),
    ] {
        assert_eq!(message.clone(), message);
    }
}
