use peer_discovery::address::{Endpoint, Ipv4};
use peer_discovery::identity::{tie_break, Role};
use peer_discovery::registry::{PeerRegistry, Step, LINK_PORT};

fn ip(d: u8) -> Ipv4 {
    Ipv4::new(192, 168, 1, d)
}

fn listen() -> Step {
    Step::Accept(Endpoint::new(Ipv4::unspecified(), LINK_PORT))
}

fn dial(d: u8) -> Step {
    Step::Initiate(Endpoint::new(ip(d), LINK_PORT))
}

#[test]
fn tie_break_is_symmetric() {
    assert_eq!(tie_break("alice", "bob"), Some(Role::Acceptor));
    assert_eq!(tie_break("bob", "alice"), Some(Role::Initiator));
    assert_eq!(tie_break("bob", "bobby"), Some(Role::Acceptor));
    assert_eq!(tie_break("bobby", "bob"), Some(Role::Initiator));
    assert_eq!(tie_break("alice", "alice"), None);
    assert_eq!(tie_break("", "a"), Some(Role::Acceptor));
}

#[test]
fn tie_break_orders_by_bytes() {
    // 'Z' is 0x5a and 'a' is 0x61.
    assert_eq!(tie_break("Zed", "alice"), Some(Role::Acceptor));
    assert_eq!(tie_break("alice", "Zed"), Some(Role::Initiator));
    // 'é' starts with 0xc3, above every ASCII byte.
    assert_eq!(tie_break("é", "z"), Some(Role::Initiator));
}

#[test]
fn new_registry_is_empty() {
    let r: PeerRegistry<u32> = PeerRegistry::new("alice");
    assert_eq!(r.local_identity(), "alice");
    assert_eq!(r.len(), 0);
    assert!(!r.contains("bob"));
    assert_eq!(r.get("bob"), None);
}

#[test]
fn plan_gives_endpoints() {
    let r: PeerRegistry<u32> = PeerRegistry::new("alice");
    assert_eq!(r.plan_add_peer("bob", ip(2)), listen());
    let r: PeerRegistry<u32> = PeerRegistry::new("bob");
    assert_eq!(r.plan_add_peer("alice", ip(1)), dial(1));
    assert_eq!(LINK_PORT, 39635);
}

#[test]
fn add_peer_is_idempotent() {
    let mut r: PeerRegistry<u32> = PeerRegistry::new("bob");
    assert_eq!(r.plan_add_peer("alice", ip(1)), dial(1));
    assert!(r.complete_add_peer("alice", Some(10)));
    assert_eq!(r.plan_add_peer("alice", ip(1)), Step::AlreadyLinked);
    assert!(!r.complete_add_peer("alice", Some(11)));
    assert_eq!(r.len(), 1);
    assert_eq!(r.get("alice"), Some(&10));
}

#[test]
fn own_identity_is_never_linked() {
    let mut r: PeerRegistry<u32> = PeerRegistry::new("alice");
    assert_eq!(r.plan_add_peer("alice", ip(1)), Step::OwnIdentity);
    assert!(!r.complete_add_peer("alice", Some(1)));
    assert_eq!(r.len(), 0);
    assert!(!r.contains("alice"));
}

#[test]
fn alice_and_bob_link_once() {
    let mut alice: PeerRegistry<&str> = PeerRegistry::new("alice");
    let mut bob: PeerRegistry<&str> = PeerRegistry::new("bob");
    // Each hears the other's announcement.
    assert_eq!(alice.plan_add_peer("bob", ip(2)), listen());
    assert_eq!(bob.plan_add_peer("alice", ip(1)), dial(1));
    assert!(alice.complete_add_peer("bob", Some("alice-bob")));
    assert!(bob.complete_add_peer("alice", Some("bob-alice")));
    // Later ticks hear the same announcements again.
    assert_eq!(alice.plan_add_peer("bob", ip(2)), Step::AlreadyLinked);
    assert_eq!(bob.plan_add_peer("alice", ip(1)), Step::AlreadyLinked);
    assert_eq!(alice.len(), 1);
    assert_eq!(bob.len(), 1);
    assert_eq!(alice.get("bob"), Some(&"alice-bob"));
    assert_eq!(bob.get("alice"), Some(&"bob-alice"));
}

#[test]
fn carol_joins_linked_pair() {
    let mut alice: PeerRegistry<&str> = PeerRegistry::new("alice");
    let mut bob: PeerRegistry<&str> = PeerRegistry::new("bob");
    assert!(alice.complete_add_peer("bob", Some("ab")));
    assert!(bob.complete_add_peer("alice", Some("ba")));
    let mut carol: PeerRegistry<&str> = PeerRegistry::new("carol");
    // alice < carol: alice listens; bob < carol: bob listens; carol dials both.
    assert_eq!(alice.plan_add_peer("carol", ip(3)), listen());
    assert_eq!(bob.plan_add_peer("carol", ip(3)), listen());
    assert_eq!(carol.plan_add_peer("alice", ip(1)), dial(1));
    assert_eq!(carol.plan_add_peer("bob", ip(2)), dial(2));
    assert!(alice.complete_add_peer("carol", Some("ac")));
    assert!(bob.complete_add_peer("carol", Some("bc")));
    assert!(carol.complete_add_peer("alice", Some("ca")));
    assert!(carol.complete_add_peer("bob", Some("cb")));
    assert_eq!(alice.get("bob"), Some(&"ab"));
    assert_eq!(bob.get("alice"), Some(&"ba"));
    assert_eq!(alice.len(), 2);
    assert_eq!(bob.len(), 2);
    assert_eq!(carol.len(), 2);
}

#[test]
fn own_loopback_announcement_is_ignored() {
    let mut alice: PeerRegistry<u32> = PeerRegistry::new("alice");
    assert!(alice.complete_add_peer("bob", Some(1)));
    assert_eq!(alice.plan_add_peer("alice", ip(1)), Step::OwnIdentity);
    assert!(!alice.complete_add_peer("alice", Some(2)));
    assert_eq!(alice.len(), 1);
    assert_eq!(alice.get("bob"), Some(&1));
    assert_eq!(alice.get("alice"), None);
}

#[test]
fn failed_attempt_is_retried() {
    // bob < carol, so carol dials bob.
    let mut carol: PeerRegistry<u32> = PeerRegistry::new("carol");
    assert_eq!(carol.plan_add_peer("bob", ip(2)), dial(2));
    assert!(!carol.complete_add_peer("bob", None));
    assert_eq!(carol.len(), 0);
    assert!(!carol.contains("bob"));
    // The next announcement tries again, and this time succeeds.
    assert_eq!(carol.plan_add_peer("bob", ip(2)), dial(2));
    assert!(carol.complete_add_peer("bob", Some(5)));
    assert_eq!(carol.get("bob"), Some(&5));
}
