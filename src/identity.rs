//! Node identities, their byte-wise order, and the rule that decides which
//! of two peers listens and which dials.
use vstd::prelude::*;
use vstd::string::StringSliceAdditionalSpecFns;
use vstd::utf8::*;

verus! {

/// The part a node plays when it links with one peer.
#[derive(Clone, Copy, Debug, PartialEq, Eq, Structural)]
pub enum Role {
    /// Listens on the well-known link port and waits for the peer to dial.
    Acceptor,
    /// Dials the peer's well-known link port.
    Initiator,
}

/// Lexicographic order of `a` and `b` from position `i` on: true when the
/// first byte that differs is smaller in `a`, or `a` ends first.
pub open spec fn less_from(a: Seq<u8>, b: Seq<u8>, i: int) -> bool
    decreases a.len() - i,
{
    if i < 0 || i >= a.len() {
        0 <= i < b.len()
    } else if i >= b.len() {
        false
    } else if a[i] < b[i] {
        true
    } else if a[i] > b[i] {
        false
    } else {
        less_from(a, b, i + 1)
    }
}

/// The byte-wise order on byte strings.
pub open spec fn bytes_less(a: Seq<u8>, b: Seq<u8>) -> bool {
    less_from(a, b, 0)
}

/// Identities are ordered by their UTF-8 bytes.
pub open spec fn identity_less(a: Seq<char>, b: Seq<char>) -> bool {
    bytes_less(encode_utf8(a), encode_utf8(b))
}

/// The role that a node named `local` takes towards a peer named `remote`:
/// the lower identity listens, the higher one dials, and a node plays no
/// part towards itself.
pub open spec fn role_of(local: Seq<char>, remote: Seq<char>) -> Option<Role> {
    if local == remote {
        None
    } else if identity_less(local, remote) {
        Some(Role::Acceptor)
    } else {
        Some(Role::Initiator)
    }
}

proof fn lemma_less_from_trichotomy(a: Seq<u8>, b: Seq<u8>, i: int)
    requires
        0 <= i <= a.len(),
        i <= b.len(),
    ensures
        !(less_from(a, b, i) && less_from(b, a, i)),
        !less_from(a, b, i) && !less_from(b, a, i) ==> a.skip(i) == b.skip(i),
    decreases a.len() - i,
{
    if i < a.len() && i < b.len() && a[i] == b[i] {
        lemma_less_from_trichotomy(a, b, i + 1);
        if !less_from(a, b, i) && !less_from(b, a, i) {
            assert(a.skip(i) =~= seq![a[i]] + a.skip(i + 1));
            assert(b.skip(i) =~= seq![b[i]] + b.skip(i + 1));
        }
    } else if i == a.len() && i == b.len() {
        assert(a.skip(i) =~= b.skip(i));
    }
}

/// Distinct identities have distinct bytes.
proof fn lemma_encoding_injective(a: Seq<char>, b: Seq<char>)
    requires
        encode_utf8(a) == encode_utf8(b),
    ensures
        a == b,
{
    encode_utf8_decode_utf8(a);
    encode_utf8_decode_utf8(b);
}

/// The tie-break is the same seen from either side: for two distinct
/// identities each node gets a role, and exactly one of them listens while
/// the other dials.
pub proof fn lemma_tie_break_symmetric(a: Seq<char>, b: Seq<char>)
    requires
        a != b,
    ensures
        role_of(a, b) is Some,
        role_of(b, a) is Some,
        role_of(a, b) == Some(Role::Acceptor) <==> role_of(b, a) == Some(Role::Initiator),
        role_of(a, b) == Some(Role::Initiator) <==> role_of(b, a) == Some(Role::Acceptor),
{
    let x = encode_utf8(a);
    let y = encode_utf8(b);
    lemma_less_from_trichotomy(x, y, 0);
    if !bytes_less(x, y) && !bytes_less(y, x) {
        assert(x == x.skip(0));
        assert(y == y.skip(0));
        lemma_encoding_injective(a, b);
    }
}

/// Compares two identities byte by byte; `None` when they are equal, else
/// the role that `local` takes towards `remote`.
pub fn tie_break(local: &str, remote: &str) -> (r: Option<Role>)
    ensures
        r == role_of(local@, remote@),
{
    let x = local.as_bytes();
    let y = remote.as_bytes();
    let n = x.len();
    let m = y.len();
    let mut i: usize = 0;
    while i < n && i < m && x[i] == y[i]
        invariant
            x@ == local.spec_bytes(),
            y@ == remote.spec_bytes(),
            n == x@.len(),
            m == y@.len(),
            0 <= i <= n,
            i <= m,
            x@.take(i as int) == y@.take(i as int),
            less_from(x@, y@, 0) == less_from(x@, y@, i as int),
        decreases n - i,
    {
        assert(x@.take(i + 1) =~= x@.take(i as int).push(x@[i as int]));
        assert(y@.take(i + 1) =~= y@.take(i as int).push(y@[i as int]));
        i = i + 1;
    }
    if i == n && i == m {
        assert(x@ =~= x@.take(i as int));
        assert(y@ =~= y@.take(i as int));
        proof {
            lemma_encoding_injective(local@, remote@);
        }
        None
    } else {
        proof {
            if local@ == remote@ {
                assert(x@ == y@);
            }
        }
        if i == n || (i < m && x[i] < y[i]) {
            Some(Role::Acceptor)
        } else {
            Some(Role::Initiator)
        }
    }
}

} // verus!
