//! Self-announcement over a multicast group: what is sent, where, and how a
//! received datagram is read back into an identity.
use vstd::prelude::*;
use vstd::slice::{slice_subrange, slice_to_vec};
use vstd::utf8::*;

use crate::address::{Endpoint, Ipv4};

verus! {

/// The port of the multicast group on which nodes announce themselves.
pub const GROUP_PORT: u16 = 26372;

/// The size of the receive buffer: longer announcements are cut to it.
pub const RECV_BUFFER_LEN: usize = 64;

/// What `String::from_utf8_lossy` makes of a byte string.
pub uninterp spec fn lossy_utf8(bytes: Seq<u8>) -> Seq<char>;

/// The group address, 239.255.73.5 (administratively scoped).
pub open spec fn group_ip() -> Ipv4 {
    Ipv4 { a: 239, b: 255, c: 73, d: 5 }
}

pub open spec fn group_endpoint() -> Endpoint {
    Endpoint { ip: group_ip(), port: GROUP_PORT }
}

/// The part of a datagram that fits in the receive buffer.
pub open spec fn received_part(datagram: Seq<u8>) -> Seq<u8> {
    if datagram.len() <= RECV_BUFFER_LEN {
        datagram
    } else {
        datagram.take(RECV_BUFFER_LEN as int)
    }
}

/// The identity claimed by a received datagram.
pub open spec fn decoded_announcement(datagram: Seq<u8>) -> Seq<char> {
    lossy_utf8(received_part(datagram))
}

/// Relies on `String::from_utf8_lossy`: the result depends on the bytes
/// alone, and well-formed UTF-8 decodes to exactly its characters.
#[verifier::external_body]
fn utf8_lossy(bytes: &[u8]) -> (r: String)
    ensures
        r@ == lossy_utf8(bytes@),
        valid_utf8(bytes@) ==> r@ == decode_utf8(bytes@),
{
    String::from_utf8_lossy(bytes).into_owned()
}

/// A datagram longer than the receive buffer reads as its first
/// `RECV_BUFFER_LEN` bytes would.
pub proof fn lemma_long_announcement_truncated(datagram: Seq<u8>)
    requires
        datagram.len() > RECV_BUFFER_LEN,
    ensures
        decoded_announcement(datagram) == decoded_announcement(
            datagram.take(RECV_BUFFER_LEN as int),
        ),
{
}

/// The announcing side of a node: its identity and the group it speaks to.
pub struct Discovery {
    identity: String,
}

impl Discovery {
    pub closed spec fn identity(&self) -> Seq<char> {
        self.identity@
    }

    pub fn new(identity: &str) -> (r: Discovery)
        ensures
            r.identity() == identity@,
    {
        Discovery { identity: identity.to_owned() }
    }

    pub fn ip_addr() -> (r: Ipv4)
        ensures
            r == group_ip(),
    {
        Ipv4::new(239, 255, 73, 5)
    }

    pub fn sock_addr() -> (r: Endpoint)
        ensures
            r == group_endpoint(),
    {
        Endpoint::new(Discovery::ip_addr(), GROUP_PORT)
    }

    pub fn identity_str(&self) -> (r: &str)
        ensures
            r@ == self.identity(),
    {
        self.identity.as_str()
    }

    /// The datagram payload that announces this node: its identity's UTF-8
    /// bytes, with no header, length or terminator.
    pub fn announcement(&self) -> (r: Vec<u8>)
        ensures
            r@ == encode_utf8(self.identity()),
    {
        slice_to_vec(self.identity.as_str().as_bytes())
    }

    /// Reads a received datagram as the identity it claims. Bytes past the
    /// receive buffer are dropped and malformed UTF-8 is replaced, never
    /// rejected.
    pub fn decode(datagram: &[u8]) -> (r: String)
        ensures
            r@ == decoded_announcement(datagram@),
            valid_utf8(received_part(datagram@)) ==> r@ == decode_utf8(received_part(datagram@)),
    {
        if datagram.len() <= RECV_BUFFER_LEN {
            utf8_lossy(datagram)
        } else {
            utf8_lossy(slice_subrange(datagram, 0, RECV_BUFFER_LEN))
        }
    }
}

} // verus!
