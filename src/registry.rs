//! The table of established peer links, and the decisions that link a newly
//! discovered peer at most once.
use vstd::prelude::*;

use crate::address::{Endpoint, Ipv4};
use crate::identity::{role_of, tie_break, Role};

verus! {

/// The well-known port on which an acceptor listens for its peer's dial.
/// Every node must agree on it.
pub const LINK_PORT: u16 = 39635;

/// What a node does about one announcement from a peer.
#[derive(Clone, Copy, Debug, PartialEq, Eq, Structural)]
pub enum Step {
    /// A link with this identity exists already: nothing to do.
    AlreadyLinked,
    /// The announcement is this node's own: nothing to do.
    OwnIdentity,
    /// Listen at this endpoint and wait for the peer to connect.
    Accept(Endpoint),
    /// Connect to the peer at this endpoint.
    Initiate(Endpoint),
}

/// The endpoint an acceptor listens on: every interface, the link port.
pub open spec fn listen_endpoint() -> Endpoint {
    Endpoint { ip: Ipv4 { a: 0, b: 0, c: 0, d: 0 }, port: LINK_PORT }
}

/// The endpoint an initiator dials: the peer's announced address, the link port.
pub open spec fn dial_endpoint(remote_ip: Ipv4) -> Endpoint {
    Endpoint { ip: remote_ip, port: LINK_PORT }
}

/// The step a node named `local`, holding the links `peers`, takes when
/// `remote` announces itself from `remote_ip`.
pub open spec fn step_for<L>(
    peers: Map<Seq<char>, L>,
    local: Seq<char>,
    remote: Seq<char>,
    remote_ip: Ipv4,
) -> Step {
    if peers.dom().contains(remote) {
        Step::AlreadyLinked
    } else {
        match role_of(local, remote) {
            None => Step::OwnIdentity,
            Some(Role::Acceptor) => Step::Accept(listen_endpoint()),
            Some(Role::Initiator) => Step::Initiate(dial_endpoint(remote_ip)),
        }
    }
}

/// Whether a link with `remote` may be stored: there is none yet, and
/// `remote` is not the node itself.
pub open spec fn admits<L>(peers: Map<Seq<char>, L>, local: Seq<char>, remote: Seq<char>) -> bool {
    !peers.dom().contains(remote) && remote != local
}

spec fn map_of<L>(s: Seq<(String, L)>) -> Map<Seq<char>, L>
    decreases s.len(),
{
    if s.len() == 0 {
        Map::empty()
    } else {
        map_of(s.drop_last()).insert(s.last().0@, s.last().1)
    }
}

spec fn keys_unique<L>(s: Seq<(String, L)>) -> bool {
    forall|i: int, j: int| 0 <= i < j < s.len() ==> #[trigger] s[i].0@ != #[trigger] s[j].0@
}

proof fn lemma_map_of_contains<L>(s: Seq<(String, L)>, j: int)
    requires
        0 <= j < s.len(),
    ensures
        map_of(s).dom().contains(s[j].0@),
    decreases s.len(),
{
    if j < s.len() - 1 {
        lemma_map_of_contains(s.drop_last(), j);
    }
}

proof fn lemma_map_of_absent<L>(s: Seq<(String, L)>, k: Seq<char>)
    requires
        forall|j: int| 0 <= j < s.len() ==> #[trigger] s[j].0@ != k,
    ensures
        !map_of(s).dom().contains(k),
    decreases s.len(),
{
    if s.len() > 0 {
        let t = s.drop_last();
        assert forall|j: int| 0 <= j < t.len() implies #[trigger] t[j].0@ != k by {
            assert(t[j] == s[j]);
        }
        lemma_map_of_absent(t, k);
    }
}

proof fn lemma_map_of_value<L>(s: Seq<(String, L)>, j: int)
    requires
        0 <= j < s.len(),
        keys_unique(s),
    ensures
        map_of(s)[s[j].0@] == s[j].1,
    decreases s.len(),
{
    if j < s.len() - 1 {
        let t = s.drop_last();
        assert(t[j] == s[j]);
        assert(keys_unique(t)) by {
            assert forall|a: int, b: int| 0 <= a < b < t.len() implies #[trigger] t[a].0@
                != #[trigger] t[b].0@ by {
                assert(t[a] == s[a] && t[b] == s[b]);
            }
        }
        lemma_map_of_value(t, j);
        assert(s[j].0@ != s[s.len() - 1].0@);
    }
}

proof fn lemma_map_of_len<L>(s: Seq<(String, L)>)
    requires
        keys_unique(s),
    ensures
        map_of(s).dom().finite(),
        map_of(s).dom().len() == s.len(),
    decreases s.len(),
{
    if s.len() > 0 {
        let t = s.drop_last();
        assert(keys_unique(t)) by {
            assert forall|a: int, b: int| 0 <= a < b < t.len() implies #[trigger] t[a].0@
                != #[trigger] t[b].0@ by {
                assert(t[a] == s[a] && t[b] == s[b]);
            }
        }
        lemma_map_of_len(t);
        assert forall|j: int| 0 <= j < t.len() implies #[trigger] t[j].0@ != s.last().0@ by {
            assert(t[j] == s[j]);
        }
        lemma_map_of_absent(t, s.last().0@);
    }
}

/// The links a node has established, at most one per peer identity.
pub struct PeerRegistry<L> {
    local: String,
    peers: Vec<(String, L)>,
}

impl<L> PeerRegistry<L> {
    /// This node's own identity.
    pub closed spec fn local(&self) -> Seq<char> {
        self.local@
    }

    /// The established links, keyed by peer identity.
    pub closed spec fn peers(&self) -> Map<Seq<char>, L> {
        map_of(self.peers@)
    }

    /// Keys are unique, and the node never holds a link to itself.
    pub closed spec fn wf(&self) -> bool {
        &&& keys_unique(self.peers@)
        &&& !self.peers().dom().contains(self.local())
    }

    /// An empty registry for the node named `local`.
    pub fn new(local: &str) -> (r: PeerRegistry<L>)
        ensures
            r.wf(),
            r.local() == local@,
            r.peers() == Map::<Seq<char>, L>::empty(),
    {
        let r = PeerRegistry { local: local.to_owned(), peers: Vec::new() };
        assert(r.peers@ =~= Seq::<(String, L)>::empty());
        r
    }

    pub fn local_identity(&self) -> (r: &str)
        ensures
            r@ == self.local(),
    {
        self.local.as_str()
    }

    /// The position of the link keyed by `id`, if there is one.
    fn find(&self, id: &str) -> (r: Option<usize>)
        ensures
            match r {
                Some(i) => i < self.peers@.len() && self.peers@[i as int].0@ == id@,
                None => !self.peers().dom().contains(id@),
            },
    {
        let n = self.peers.len();
        let mut i: usize = 0;
        while i < n
            invariant
                n == self.peers@.len(),
                0 <= i <= n,
                forall|j: int| 0 <= j < i ==> #[trigger] self.peers@[j].0@ != id@,
            decreases n - i,
        {
            if tie_break(self.peers[i].0.as_str(), id).is_none() {
                return Some(i);
            }
            i = i + 1;
        }
        proof {
            lemma_map_of_absent(self.peers@, id@);
        }
        None
    }

    pub fn contains(&self, id: &str) -> (r: bool)
        ensures
            r == self.peers().dom().contains(id@),
    {
        match self.find(id) {
            Some(i) => {
                proof {
                    lemma_map_of_contains(self.peers@, i as int);
                }
                true
            },
            None => false,
        }
    }

    /// The link with the peer named `id`, if one is established.
    pub fn get(&self, id: &str) -> (r: Option<&L>)
        requires
            self.wf(),
        ensures
            match r {
                Some(l) => self.peers().dom().contains(id@) && *l == self.peers()[id@],
                None => !self.peers().dom().contains(id@),
            },
    {
        match self.find(id) {
            Some(i) => {
                proof {
                    lemma_map_of_contains(self.peers@, i as int);
                    lemma_map_of_value(self.peers@, i as int);
                }
                Some(&self.peers[i].1)
            },
            None => None,
        }
    }

    /// The number of established links.
    pub fn len(&self) -> (r: usize)
        requires
            self.wf(),
        ensures
            r == self.peers().dom().len(),
    {
        proof {
            lemma_map_of_len(self.peers@);
        }
        self.peers.len()
    }

    /// Decides what to do about an announcement of `remote` from `remote_ip`:
    /// nothing when a link exists or the announcement is the node's own;
    /// else listen when this node's identity is the lower, dial when it is
    /// the higher.
    pub fn plan_add_peer(&self, remote: &str, remote_ip: Ipv4) -> (r: Step)
        ensures
            r == step_for(self.peers(), self.local(), remote@, remote_ip),
    {
        if self.contains(remote) {
            return Step::AlreadyLinked;
        }
        match tie_break(self.local.as_str(), remote) {
            None => Step::OwnIdentity,
            Some(Role::Acceptor) => Step::Accept(Endpoint::new(Ipv4::unspecified(), LINK_PORT)),
            Some(Role::Initiator) => Step::Initiate(Endpoint::new(remote_ip, LINK_PORT)),
        }
    }

    /// Records the outcome of an attempt to link with `remote`: a link is
    /// stored when the attempt succeeded and the registry admits it; a
    /// failed attempt leaves the registry as it was, so that the next
    /// announcement from `remote` tries again.
    pub fn complete_add_peer(&mut self, remote: &str, outcome: Option<L>) -> (added: bool)
        requires
            old(self).wf(),
        ensures
            final(self).wf(),
            final(self).local() == old(self).local(),
            added == (outcome is Some && admits(old(self).peers(), old(self).local(), remote@)),
            added ==> final(self).peers() == old(self).peers().insert(remote@, outcome.unwrap()),
            !added ==> final(self).peers() == old(self).peers(),
    {
        match outcome {
            None => false,
            Some(link) => {
                if self.contains(remote) || tie_break(self.local.as_str(), remote).is_none() {
                    return false;
                }
                let ghost before = self.peers@;
                self.peers.push((remote.to_owned(), link));
                proof {
                    assert(self.peers@.drop_last() =~= before);
                    assert forall|j: int| 0 <= j < before.len() implies #[trigger] before[j].0@
                        != remote@ by {
                        lemma_map_of_contains(before, j);
                    }
                    assert(keys_unique(self.peers@)) by {
                        assert forall|a: int, b: int| 0 <= a < b < self.peers@.len() implies
                            #[trigger] self.peers@[a].0@ != #[trigger] self.peers@[b].0@ by {
                            if b == before.len() {
                                assert(self.peers@[a] == before[a]);
                            } else {
                                assert(self.peers@[a] == before[a] && self.peers@[b] == before[b]);
                            }
                        }
                    }
                }
                true
            },
        }
    }
}

/// Linking is idempotent: once a link with `remote` is stored, a second
/// announcement of `remote` plans nothing and no further outcome is stored.
pub proof fn lemma_add_peer_idempotent<L>(
    peers: Map<Seq<char>, L>,
    local: Seq<char>,
    remote: Seq<char>,
    link: L,
    remote_ip: Ipv4,
)
    ensures
        step_for(peers.insert(remote, link), local, remote, remote_ip) == Step::AlreadyLinked,
        !admits(peers.insert(remote, link), local, remote),
{
}

/// A node's own announcement never leads to a connection attempt, and no
/// link is ever stored under its own identity.
pub proof fn lemma_own_identity_never_linked<L>(
    peers: Map<Seq<char>, L>,
    local: Seq<char>,
    remote_ip: Ipv4,
)
    ensures
        !(step_for(peers, local, local, remote_ip) is Accept),
        !(step_for(peers, local, local, remote_ip) is Initiate),
        !admits(peers, local, local),
{
}

} // verus!
