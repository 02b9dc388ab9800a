//! The ranking of member records, used wherever members have to be put in
//! one agreed order. It says nothing about which of two records is to be
//! believed.

use crate::epidemic::address::{remote_text, SocketAddress};
use crate::epidemic::member::{ArtilleryMember, MemberView};
use vstd::prelude::*;

verus! {

/// Lexicographic order on byte strings: the first byte that differs decides,
/// and a proper prefix comes before what it is a prefix of.
pub open spec fn bytes_less(a: Seq<u8>, b: Seq<u8>) -> bool
    decreases a.len(),
{
    if b.len() == 0 {
        false
    } else if a.len() == 0 {
        true
    } else if a[0] != b[0] {
        a[0] < b[0]
    } else {
        bytes_less(a.drop_first(), b.drop_first())
    }
}

/// Order on optional addresses: that of their printed forms, byte by byte.
/// The local node, which prints as `None`, comes before every address, and
/// every IPv4 address before every IPv6 address. Within a family the text
/// decides, not the numbers: `127.0.0.1:10` comes before `127.0.0.1:9`. Two
/// IPv6 addresses that differ in their flow information alone print alike
/// and are not told apart.
pub open spec fn remote_less(a: Option<SocketAddress>, b: Option<SocketAddress>) -> bool {
    bytes_less(remote_text(a), remote_text(b))
}

/// The ranking of member records: by host key, then by the printed form of
/// the remote address, then by incarnation number, then by the precedence
/// of the state. Timestamp, labels and metadata play no part.
pub open spec fn member_less(a: MemberView, b: MemberView) -> bool {
    let same_host = a.host_key == b.host_key;
    let same_remote = remote_text(a.remote_host) == remote_text(b.remote_host);
    ||| bytes_less(a.host_key, b.host_key)
    ||| same_host && remote_less(a.remote_host, b.remote_host)
    ||| same_host && same_remote && a.incarnation_number < b.incarnation_number
    ||| same_host && same_remote && a.incarnation_number == b.incarnation_number
        && a.member_state.spec_rank() < b.member_state.spec_rank()
}

/// Two records that the ranking does not tell apart.
pub open spec fn same_rank(a: MemberView, b: MemberView) -> bool {
    &&& a.host_key == b.host_key
    &&& remote_text(a.remote_host) == remote_text(b.remote_host)
    &&& a.incarnation_number == b.incarnation_number
    &&& a.member_state == b.member_state
}

pub proof fn lemma_bytes_less_irreflexive(a: Seq<u8>)
    ensures
        !bytes_less(a, a),
    decreases a.len(),
{
    if a.len() > 0 {
        lemma_bytes_less_irreflexive(a.drop_first());
    }
}

pub proof fn lemma_bytes_less_transitive(a: Seq<u8>, b: Seq<u8>, c: Seq<u8>)
    requires
        bytes_less(a, b),
        bytes_less(b, c),
    ensures
        bytes_less(a, c),
    decreases a.len(),
{
    if a.len() > 0 && a[0] == b[0] && b[0] == c[0] {
        lemma_bytes_less_transitive(a.drop_first(), b.drop_first(), c.drop_first());
    }
}

pub proof fn lemma_bytes_less_connected(a: Seq<u8>, b: Seq<u8>)
    requires
        a != b,
    ensures
        bytes_less(a, b) || bytes_less(b, a),
    decreases a.len(),
{
    if a.len() == 0 || b.len() == 0 {
        if a.len() == 0 && b.len() == 0 {
            assert(a =~= b);
        }
    } else if a[0] == b[0] {
        if a.drop_first() == b.drop_first() {
            assert(a =~= seq![a[0]] + a.drop_first());
            assert(b =~= seq![b[0]] + b.drop_first());
        }
        lemma_bytes_less_connected(a.drop_first(), b.drop_first());
    }
}

/// Where two byte strings agree in their first `i` bytes, what follows
/// these decides their order.
pub proof fn lemma_bytes_less_after_prefix(a: Seq<u8>, b: Seq<u8>, i: usize)
    requires
        i <= a.len(),
        i <= b.len(),
        forall|j: int| 0 <= j < i ==> a[j] == b[j],
    ensures
        bytes_less(a, b) == bytes_less(a.skip(i as int), b.skip(i as int)),
    decreases i,
{
    if i > 0 {
        let a1 = a.drop_first();
        let b1 = b.drop_first();
        assert(a[0] == b[0]);
        assert forall|j: int| 0 <= j < i - 1 implies a1[j] == b1[j] by {
            assert(a1[j] == a[j + 1]);
            assert(b1[j] == b[j + 1]);
        }
        lemma_bytes_less_after_prefix(a1, b1, (i - 1) as usize);
        assert(a1.skip(i - 1) =~= a.skip(i as int));
        assert(b1.skip(i - 1) =~= b.skip(i as int));
    } else {
        assert(a.skip(0) =~= a);
        assert(b.skip(0) =~= b);
    }
}

/// Where two byte strings part: the first index at which they hold
/// different bytes or at which one of them ends and the other goes on.
/// `None` where they are equal.
pub fn first_difference(a: &[u8], b: &[u8]) -> (r: Option<usize>)
    ensures
        r is None <==> a@ == b@,
        r matches Some(i) ==> {
            &&& i <= a@.len()
            &&& i <= b@.len()
            &&& forall|j: int| 0 <= j < i ==> a@[j] == b@[j]
            &&& (i < a@.len() && i < b@.len() ==> a@[i as int] != b@[i as int])
            &&& (i == a@.len() ==> i < b@.len())
        },
{
    let mut i: usize = 0;
    while i < a.len() && i < b.len()
        invariant
            i <= a@.len(),
            i <= b@.len(),
            forall|j: int| 0 <= j < i ==> a@[j] == b@[j],
        decreases a@.len() - i,
    {
        if a[i] != b[i] {
            return Some(i);
        }
        i = i + 1;
    }
    if a.len() == b.len() {
        assert(a@ =~= b@);
        None
    } else {
        Some(i)
    }
}

/// What a first difference at `i` says of the order of two byte strings:
/// the one that ends there comes first, else the one with the lower byte.
pub proof fn lemma_bytes_less_at_difference(a: Seq<u8>, b: Seq<u8>, i: usize)
    requires
        i <= a.len(),
        i <= b.len(),
        forall|j: int| 0 <= j < i ==> a[j] == b[j],
        i < a.len() && i < b.len() ==> a[i as int] != b[i as int],
        i < a.len() || i < b.len(),
    ensures
        bytes_less(a, b) == (i == a.len() || (i < b.len() && a[i as int] < b[i as int])),
        bytes_less(b, a) == !bytes_less(a, b),
{
    lemma_bytes_less_after_prefix(a, b, i);
    assert forall|j: int| 0 <= j < i implies b[j] == a[j] by {}
    lemma_bytes_less_after_prefix(b, a, i);
    let a1 = a.skip(i as int);
    let b1 = b.skip(i as int);
    if i < a.len() && i < b.len() {
        assert(a1[0] == a[i as int] && b1[0] == b[i as int]);
    }
}

/// No record ranks before itself.
pub proof fn lemma_member_less_irreflexive(a: ArtilleryMember)
    ensures
        !member_less(a@, a@),
{
    lemma_bytes_less_irreflexive(a@.host_key);
    lemma_bytes_less_irreflexive(remote_text(a@.remote_host));
}

/// The ranking is transitive.
pub proof fn lemma_member_less_transitive(a: ArtilleryMember, b: ArtilleryMember, c: ArtilleryMember)
    requires
        member_less(a@, b@),
        member_less(b@, c@),
    ensures
        member_less(a@, c@),
{
    if bytes_less(a@.host_key, b@.host_key) && bytes_less(b@.host_key, c@.host_key) {
        lemma_bytes_less_transitive(a@.host_key, b@.host_key, c@.host_key);
    }
    let ta = remote_text(a@.remote_host);
    let tb = remote_text(b@.remote_host);
    let tc = remote_text(c@.remote_host);
    if bytes_less(ta, tb) && bytes_less(tb, tc) {
        lemma_bytes_less_transitive(ta, tb, tc);
    }
}

/// Of two records, at most one ranks before the other.
pub proof fn lemma_member_less_asymmetric(a: ArtilleryMember, b: ArtilleryMember)
    requires
        member_less(a@, b@),
    ensures
        !member_less(b@, a@),
{
    lemma_bytes_less_irreflexive(a@.host_key);
    if bytes_less(a@.host_key, b@.host_key) && bytes_less(b@.host_key, a@.host_key) {
        lemma_bytes_less_transitive(a@.host_key, b@.host_key, a@.host_key);
    }
    let ta = remote_text(a@.remote_host);
    let tb = remote_text(b@.remote_host);
    lemma_bytes_less_irreflexive(ta);
    if bytes_less(ta, tb) && bytes_less(tb, ta) {
        lemma_bytes_less_transitive(ta, tb, ta);
    }
}

/// Two records with different host keys are always ranked, one way or the
/// other.
pub proof fn lemma_member_less_total(a: ArtilleryMember, b: ArtilleryMember)
    requires
        a@.host_key != b@.host_key,
    ensures
        member_less(a@, b@) || member_less(b@, a@),
{
    lemma_bytes_less_connected(a@.host_key, b@.host_key);
}

/// Any two records are ranked unless they agree in all four parts that the
/// ranking reads: host key, printed address, incarnation number and state.
pub proof fn lemma_member_less_trichotomy(a: ArtilleryMember, b: ArtilleryMember)
    ensures
        member_less(a@, b@) || member_less(b@, a@) || same_rank(a@, b@),
        same_rank(a@, b@) ==> !member_less(a@, b@) && !member_less(b@, a@),
{
    let ta = remote_text(a@.remote_host);
    let tb = remote_text(b@.remote_host);
    lemma_bytes_less_irreflexive(a@.host_key);
    lemma_bytes_less_irreflexive(ta);
    if a@.host_key != b@.host_key {
        lemma_bytes_less_connected(a@.host_key, b@.host_key);
    }
    if ta != tb {
        lemma_bytes_less_connected(ta, tb);
    }
}

} // verus!
