//! Member records as bytes. A record is written field by field, numbers
//! least significant byte first, texts and byte runs behind their length.
//! Every record has exactly one encoding and no two records share one, so
//! what was written is what is read back.

use crate::epidemic::address::SocketAddress;
use crate::epidemic::host_key::HostKey;
use crate::epidemic::member::{
    ArtilleryMember, ArtilleryMemberState, ArtilleryStateChange, Labels, MemberView,
};
use crate::epidemic::time::Timestamp;
use vstd::bytes::*;
use vstd::prelude::*;
use vstd::slice::{slice_subrange, slice_to_vec};
use vstd::utf8::*;

verus! {

/// A length, as eight bytes, least significant first.
pub open spec fn encode_length(n: nat) -> Seq<u8> {
    spec_u64_to_le_bytes(n as u64)
}

/// A run of bytes: its length, then the bytes.
pub open spec fn encode_blob(b: Seq<u8>) -> Seq<u8> {
    encode_length(b.len()) + b
}

/// A text: its UTF-8 form as a run of bytes.
pub open spec fn encode_text(t: Seq<char>) -> Seq<u8> {
    encode_blob(encode_utf8(t))
}

/// A label: its key, then its value.
pub open spec fn encode_label(l: (Seq<char>, Seq<char>)) -> Seq<u8> {
    encode_text(l.0) + encode_text(l.1)
}

/// The labels one after the other, in their order.
pub open spec fn encode_labels(ls: Seq<(Seq<char>, Seq<char>)>) -> Seq<u8>
    decreases ls.len(),
{
    if ls.len() == 0 {
        Seq::empty()
    } else {
        encode_label(ls[0]) + encode_labels(ls.drop_first())
    }
}

/// A remote address: a byte that tells the three cases apart (0 for none,
/// 4 for IPv4, 6 for IPv6), then the parts of the address, each least
/// significant byte first.
pub open spec fn encode_remote(r: Option<SocketAddress>) -> Seq<u8> {
    match r {
        None => seq![0u8],
        Some(SocketAddress::V4 { ip, port }) => seq![4u8] + spec_u32_to_le_bytes(ip)
            + spec_u16_to_le_bytes(port),
        Some(SocketAddress::V6 { ip, port, flowinfo, scope_id }) => seq![6u8]
            + spec_u128_to_le_bytes(ip) + spec_u16_to_le_bytes(port) + spec_u32_to_le_bytes(
            flowinfo,
        ) + spec_u32_to_le_bytes(scope_id),
    }
}

/// The letter that stands for a state: `a`, `s`, `d` or `l`.
pub open spec fn state_tag(s: ArtilleryMemberState) -> u8 {
    match s {
        ArtilleryMemberState::Alive => 97u8,
        ArtilleryMemberState::Suspect => 115u8,
        ArtilleryMemberState::Down => 100u8,
        ArtilleryMemberState::Left => 108u8,
    }
}

/// The seconds of a timestamp, moved up by 2^63 so that none is negative.
pub open spec fn biased_seconds(secs: i64) -> u64 {
    (secs + 0x8000_0000_0000_0000) as u64
}

/// A timestamp: its seconds, then its nanoseconds.
pub open spec fn encode_timestamp(t: Timestamp) -> Seq<u8> {
    spec_u64_to_le_bytes(biased_seconds(t.secs)) + spec_u32_to_le_bytes(t.nanos)
}

/// What follows the host key in the encoding of a member record.
pub open spec fn encode_body(v: MemberView) -> Seq<u8> {
    encode_remote(v.remote_host) + spec_u64_to_le_bytes(v.incarnation_number) + seq![
        state_tag(v.member_state),
    ] + encode_timestamp(v.last_state_change) + encode_length(v.labels.len()) + encode_labels(
        v.labels,
    ) + encode_blob(v.metadata)
}

/// The bytes that stand for a member record: host key, remote address,
/// incarnation number, state, time of the last change of state, the number
/// of labels and the labels, and the metadata.
pub open spec fn encode_member(v: MemberView) -> Seq<u8> {
    v.host_key + encode_body(v)
}

/// A text whose UTF-8 form has a length that eight bytes can hold.
pub open spec fn text_fits(t: Seq<char>) -> bool {
    encode_utf8(t).len() <= u64::MAX
}

/// A label of which both texts fit.
pub open spec fn label_fits(l: (Seq<char>, Seq<char>)) -> bool {
    text_fits(l.0) && text_fits(l.1)
}

/// Labels of which each one fits.
pub open spec fn labels_fit(ls: Seq<(Seq<char>, Seq<char>)>) -> bool {
    forall|i: int| 0 <= i < ls.len() ==> #[trigger] label_fits(ls[i])
}

/// A record that can be encoded: its host key has sixteen bytes, and eight
/// bytes can hold each of its lengths. Every record that a node holds in
/// memory is of this kind.
pub open spec fn encodable(v: MemberView) -> bool {
    &&& v.host_key.len() == 16
    &&& v.labels.len() <= u64::MAX
    &&& labels_fit(v.labels)
    &&& v.metadata.len() <= u64::MAX
}

/// The first `n` bytes and what follows them, where there are that many.
spec fn split(s: Seq<u8>, n: int) -> Option<(Seq<u8>, Seq<u8>)> {
    if 0 <= n <= s.len() {
        Some((s.take(n), s.skip(n)))
    } else {
        None
    }
}

spec fn parse_u8(s: Seq<u8>) -> Option<(u8, Seq<u8>)> {
    match split(s, 1) {
        Some((h, r)) => Some((h[0], r)),
        None => None,
    }
}

spec fn parse_u16(s: Seq<u8>) -> Option<(u16, Seq<u8>)> {
    match split(s, 2) {
        Some((h, r)) => Some((spec_u16_from_le_bytes(h), r)),
        None => None,
    }
}

spec fn parse_u32(s: Seq<u8>) -> Option<(u32, Seq<u8>)> {
    match split(s, 4) {
        Some((h, r)) => Some((spec_u32_from_le_bytes(h), r)),
        None => None,
    }
}

spec fn parse_u64(s: Seq<u8>) -> Option<(u64, Seq<u8>)> {
    match split(s, 8) {
        Some((h, r)) => Some((spec_u64_from_le_bytes(h), r)),
        None => None,
    }
}

spec fn parse_u128(s: Seq<u8>) -> Option<(u128, Seq<u8>)> {
    match split(s, 16) {
        Some((h, r)) => Some((spec_u128_from_le_bytes(h), r)),
        None => None,
    }
}

spec fn parse_blob(s: Seq<u8>) -> Option<(Seq<u8>, Seq<u8>)> {
    match parse_u64(s) {
        Some((n, r)) => split(r, n as int),
        None => None,
    }
}

spec fn parse_text(s: Seq<u8>) -> Option<(Seq<char>, Seq<u8>)> {
    match parse_blob(s) {
        Some((b, r)) => if valid_utf8(b) {
            Some((decode_utf8(b), r))
        } else {
            None
        },
        None => None,
    }
}

proof fn lemma_split_joined(a: Seq<u8>, rest: Seq<u8>)
    ensures
        split(a + rest, a.len() as int) == Some((a, rest)),
{
    assert((a + rest).take(a.len() as int) =~= a);
    assert((a + rest).skip(a.len() as int) =~= rest);
}

proof fn lemma_split_sound(s: Seq<u8>, n: int)
    ensures
        split(s, n) matches Some((h, r)) ==> h.len() == n && s == h + r,
        split(s, n) is None <==> !(0 <= n <= s.len()),
{
    if 0 <= n <= s.len() {
        assert(s =~= s.take(n) + s.skip(n));
    }
}

proof fn lemma_parse_u8(x: u8, rest: Seq<u8>)
    ensures
        parse_u8(seq![x] + rest) == Some((x, rest)),
{
    lemma_split_joined(seq![x], rest);
}

proof fn lemma_parse_u8_sound(s: Seq<u8>)
    ensures
        parse_u8(s) matches Some((x, r)) ==> s == seq![x] + r,
        parse_u8(s) is None <==> s.len() < 1,
{
    lemma_split_sound(s, 1);
    if let Some((h, r)) = split(s, 1) {
        assert(h =~= seq![h[0]]);
    }
}

proof fn lemma_parse_u16(x: u16, rest: Seq<u8>)
    ensures
        parse_u16(spec_u16_to_le_bytes(x) + rest) == Some((x, rest)),
{
    lemma_auto_spec_u16_to_from_le_bytes();
    lemma_split_joined(spec_u16_to_le_bytes(x), rest);
}

proof fn lemma_parse_u16_sound(s: Seq<u8>)
    ensures
        parse_u16(s) matches Some((x, r)) ==> s == spec_u16_to_le_bytes(x) + r,
        parse_u16(s) is None <==> s.len() < 2,
{
    lemma_auto_spec_u16_to_from_le_bytes();
    lemma_split_sound(s, 2);
    if let Some((h, r)) = split(s, 2) {
        assert(spec_u16_to_le_bytes(spec_u16_from_le_bytes(h)) == h);
    }
}

proof fn lemma_parse_u32(x: u32, rest: Seq<u8>)
    ensures
        parse_u32(spec_u32_to_le_bytes(x) + rest) == Some((x, rest)),
{
    lemma_auto_spec_u32_to_from_le_bytes();
    lemma_split_joined(spec_u32_to_le_bytes(x), rest);
}

proof fn lemma_parse_u32_sound(s: Seq<u8>)
    ensures
        parse_u32(s) matches Some((x, r)) ==> s == spec_u32_to_le_bytes(x) + r,
        parse_u32(s) is None <==> s.len() < 4,
{
    lemma_auto_spec_u32_to_from_le_bytes();
    lemma_split_sound(s, 4);
    if let Some((h, r)) = split(s, 4) {
        assert(spec_u32_to_le_bytes(spec_u32_from_le_bytes(h)) == h);
    }
}

proof fn lemma_parse_u64(x: u64, rest: Seq<u8>)
    ensures
        parse_u64(spec_u64_to_le_bytes(x) + rest) == Some((x, rest)),
{
    lemma_auto_spec_u64_to_from_le_bytes();
    lemma_split_joined(spec_u64_to_le_bytes(x), rest);
}

proof fn lemma_parse_u64_sound(s: Seq<u8>)
    ensures
        parse_u64(s) matches Some((x, r)) ==> s == spec_u64_to_le_bytes(x) + r,
        parse_u64(s) is None <==> s.len() < 8,
{
    lemma_auto_spec_u64_to_from_le_bytes();
    lemma_split_sound(s, 8);
    if let Some((h, r)) = split(s, 8) {
        assert(spec_u64_to_le_bytes(spec_u64_from_le_bytes(h)) == h);
    }
}

proof fn lemma_parse_u128(x: u128, rest: Seq<u8>)
    ensures
        parse_u128(spec_u128_to_le_bytes(x) + rest) == Some((x, rest)),
{
    lemma_auto_spec_u128_to_from_le_bytes();
    lemma_split_joined(spec_u128_to_le_bytes(x), rest);
}

proof fn lemma_parse_u128_sound(s: Seq<u8>)
    ensures
        parse_u128(s) matches Some((x, r)) ==> s == spec_u128_to_le_bytes(x) + r,
        parse_u128(s) is None <==> s.len() < 16,
{
    lemma_auto_spec_u128_to_from_le_bytes();
    lemma_split_sound(s, 16);
    if let Some((h, r)) = split(s, 16) {
        assert(spec_u128_to_le_bytes(spec_u128_from_le_bytes(h)) == h);
    }
}

proof fn lemma_parse_blob(b: Seq<u8>, rest: Seq<u8>)
    requires
        b.len() <= u64::MAX,
    ensures
        parse_blob(encode_blob(b) + rest) == Some((b, rest)),
{
    let n = b.len() as u64;
    assert(encode_blob(b) + rest =~= spec_u64_to_le_bytes(n) + (b + rest));
    lemma_parse_u64(n, b + rest);
    lemma_split_joined(b, rest);
}

proof fn lemma_parse_blob_sound(s: Seq<u8>)
    ensures
        parse_blob(s) matches Some((b, r)) ==> b.len() <= u64::MAX && s == encode_blob(b) + r,
{
    lemma_parse_u64_sound(s);
    if let Some((n, r0)) = parse_u64(s) {
        lemma_split_sound(r0, n as int);
        if let Some((b, r)) = split(r0, n as int) {
            assert(s =~= encode_blob(b) + r);
        }
    }
}

proof fn lemma_parse_text(t: Seq<char>, rest: Seq<u8>)
    requires
        text_fits(t),
    ensures
        parse_text(encode_text(t) + rest) == Some((t, rest)),
{
    lemma_parse_blob(encode_utf8(t), rest);
    encode_utf8_valid_utf8(t);
    encode_utf8_decode_utf8(t);
}

proof fn lemma_parse_text_sound(s: Seq<u8>)
    ensures
        parse_text(s) matches Some((t, r)) ==> text_fits(t) && s == encode_text(t) + r,
{
    lemma_parse_blob_sound(s);
    if let Some((b, r)) = parse_blob(s) {
        if valid_utf8(b) {
            decode_utf8_encode_utf8(b);
        }
    }
}

spec fn parse_label(s: Seq<u8>) -> Option<((Seq<char>, Seq<char>), Seq<u8>)> {
    match parse_text(s) {
        Some((k, r)) => match parse_text(r) {
            Some((v, r2)) => Some(((k, v), r2)),
            None => None,
        },
        None => None,
    }
}

spec fn parse_labels(s: Seq<u8>, n: nat) -> Option<
    (Seq<(Seq<char>, Seq<char>)>, Seq<u8>),
>
    decreases n,
{
    if n == 0 {
        Some((Seq::empty(), s))
    } else {
        match parse_label(s) {
            Some((l, r)) => match parse_labels(r, (n - 1) as nat) {
                Some((tail, r2)) => Some((seq![l] + tail, r2)),
                None => None,
            },
            None => None,
        }
    }
}

spec fn parse_remote(s: Seq<u8>) -> Option<(Option<SocketAddress>, Seq<u8>)> {
    match parse_u8(s) {
        Some((tag, r)) => if tag == 0 {
            Some((None, r))
        } else if tag == 4 {
            match parse_u32(r) {
                Some((ip, r1)) => match parse_u16(r1) {
                    Some((port, r2)) => Some((Some(SocketAddress::V4 { ip, port }), r2)),
                    None => None,
                },
                None => None,
            }
        } else if tag == 6 {
            match parse_u128(r) {
                Some((ip, r1)) => match parse_u16(r1) {
                    Some((port, r2)) => match parse_u32(r2) {
                        Some((flowinfo, r3)) => match parse_u32(r3) {
                            Some((scope_id, r4)) => Some(
                                (Some(SocketAddress::V6 { ip, port, flowinfo, scope_id }), r4),
                            ),
                            None => None,
                        },
                        None => None,
                    },
                    None => None,
                },
                None => None,
            }
        } else {
            None
        },
        None => None,
    }
}

spec fn parse_state(s: Seq<u8>) -> Option<(ArtilleryMemberState, Seq<u8>)> {
    match parse_u8(s) {
        Some((tag, r)) => if tag == 97 {
            Some((ArtilleryMemberState::Alive, r))
        } else if tag == 115 {
            Some((ArtilleryMemberState::Suspect, r))
        } else if tag == 100 {
            Some((ArtilleryMemberState::Down, r))
        } else if tag == 108 {
            Some((ArtilleryMemberState::Left, r))
        } else {
            None
        },
        None => None,
    }
}

/// The seconds that `biased_seconds` turns into `x`.
spec fn unbiased_seconds(x: u64) -> i64 {
    (x - 0x8000_0000_0000_0000) as i64
}

spec fn parse_timestamp(s: Seq<u8>) -> Option<(Timestamp, Seq<u8>)> {
    match parse_u64(s) {
        Some((x, r)) => match parse_u32(r) {
            Some((nanos, r2)) => Some((Timestamp { secs: unbiased_seconds(x), nanos }, r2)),
            None => None,
        },
        None => None,
    }
}

spec fn parse_body(host_key: Seq<u8>, s: Seq<u8>) -> Option<MemberView> {
    match parse_remote(s) {
        Some((remote_host, r1)) => match parse_u64(r1) {
            Some((incarnation_number, r2)) => match parse_state(r2) {
                Some((member_state, r3)) => match parse_timestamp(r3) {
                    Some((last_state_change, r4)) => match parse_u64(r4) {
                        Some((count, r5)) => match parse_labels(r5, count as nat) {
                            Some((labels, r6)) => match parse_blob(r6) {
                                Some((metadata, r7)) => if r7.len() == 0 {
                                    Some(
                                        MemberView {
                                            host_key,
                                            remote_host,
                                            incarnation_number,
                                            member_state,
                                            last_state_change,
                                            labels,
                                            metadata,
                                        },
                                    )
                                } else {
                                    None
                                },
                                None => None,
                            },
                            None => None,
                        },
                        None => None,
                    },
                    None => None,
                },
                None => None,
            },
            None => None,
        },
        None => None,
    }
}

spec fn parse_member(s: Seq<u8>) -> Option<MemberView> {
    match split(s, 16) {
        Some((host_key, r)) => parse_body(host_key, r),
        None => None,
    }
}

proof fn lemma_parse_label(l: (Seq<char>, Seq<char>), rest: Seq<u8>)
    requires
        text_fits(l.0),
        text_fits(l.1),
    ensures
        parse_label(encode_label(l) + rest) == Some((l, rest)),
{
    assert(encode_label(l) + rest =~= encode_text(l.0) + (encode_text(l.1) + rest));
    lemma_parse_text(l.0, encode_text(l.1) + rest);
    lemma_parse_text(l.1, rest);
}

proof fn lemma_parse_label_sound(s: Seq<u8>)
    ensures
        parse_label(s) matches Some((l, r)) ==> text_fits(l.0) && text_fits(l.1) && s
            == encode_label(l) + r,
{
    lemma_parse_text_sound(s);
    if let Some((k, r)) = parse_text(s) {
        lemma_parse_text_sound(r);
        if let Some((v, r2)) = parse_text(r) {
            assert(s =~= encode_label((k, v)) + r2);
        }
    }
}

proof fn lemma_parse_labels(ls: Seq<(Seq<char>, Seq<char>)>, rest: Seq<u8>)
    requires
        labels_fit(ls),
    ensures
        parse_labels(encode_labels(ls) + rest, ls.len()) == Some((ls, rest)),
    decreases ls.len(),
{
    if ls.len() == 0 {
        assert(encode_labels(ls) + rest =~= rest);
        assert(ls =~= Seq::empty());
    } else {
        let tail = ls.drop_first();
        assert(label_fits(ls[0]));
        assert forall|i: int| 0 <= i < tail.len() implies #[trigger] label_fits(tail[i]) by {
            assert(tail[i] == ls[i + 1]);
            assert(label_fits(ls[i + 1]));
        }
        assert(encode_labels(ls) + rest =~= encode_label(ls[0]) + (encode_labels(tail) + rest));
        lemma_parse_label(ls[0], encode_labels(tail) + rest);
        lemma_parse_labels(tail, rest);
        assert(seq![ls[0]] + tail =~= ls);
    }
}

proof fn lemma_parse_labels_sound(s: Seq<u8>, n: nat)
    ensures
        parse_labels(s, n) matches Some((ls, r)) ==> ls.len() == n && labels_fit(ls) && s
            == encode_labels(ls) + r,
    decreases n,
{
    if n == 0 {
        assert(s =~= encode_labels(Seq::empty()) + s);
    } else {
        lemma_parse_label_sound(s);
        if let Some((l, r)) = parse_label(s) {
            lemma_parse_labels_sound(r, (n - 1) as nat);
            if let Some((tail, r2)) = parse_labels(r, (n - 1) as nat) {
                let ls = seq![l] + tail;
                assert(ls.drop_first() =~= tail);
                assert(ls[0] == l);
                assert forall|i: int| 0 <= i < ls.len() implies #[trigger] label_fits(ls[i]) by {
                    if i > 0 {
                        assert(ls[i] == tail[i - 1]);
                        assert(label_fits(tail[i - 1]));
                    }
                }
                assert(s =~= encode_labels(ls) + r2);
            }
        }
    }
}

proof fn lemma_parse_remote(a: Option<SocketAddress>, rest: Seq<u8>)
    ensures
        parse_remote(encode_remote(a) + rest) == Some((a, rest)),
{
    match a {
        None => {
            lemma_parse_u8(0u8, rest);
        },
        Some(SocketAddress::V4 { ip, port }) => {
            let r1 = spec_u16_to_le_bytes(port) + rest;
            let r0 = spec_u32_to_le_bytes(ip) + r1;
            assert(encode_remote(a) + rest =~= seq![4u8] + r0);
            lemma_parse_u8(4u8, r0);
            lemma_parse_u32(ip, r1);
            lemma_parse_u16(port, rest);
        },
        Some(SocketAddress::V6 { ip, port, flowinfo, scope_id }) => {
            let r3 = spec_u32_to_le_bytes(scope_id) + rest;
            let r2 = spec_u32_to_le_bytes(flowinfo) + r3;
            let r1 = spec_u16_to_le_bytes(port) + r2;
            let r0 = spec_u128_to_le_bytes(ip) + r1;
            assert(encode_remote(a) + rest =~= seq![6u8] + r0);
            lemma_parse_u8(6u8, r0);
            lemma_parse_u128(ip, r1);
            lemma_parse_u16(port, r2);
            lemma_parse_u32(flowinfo, r3);
            lemma_parse_u32(scope_id, rest);
        },
    }
}

proof fn lemma_parse_remote_sound(s: Seq<u8>)
    ensures
        parse_remote(s) matches Some((a, r)) ==> s == encode_remote(a) + r,
{
    lemma_parse_u8_sound(s);
    if let Some((tag, r)) = parse_u8(s) {
        if tag == 0 {
        } else if tag == 4 {
            lemma_parse_u32_sound(r);
            if let Some((ip, r1)) = parse_u32(r) {
                lemma_parse_u16_sound(r1);
                if let Some((port, r2)) = parse_u16(r1) {
                    assert(s =~= encode_remote(Some(SocketAddress::V4 { ip, port })) + r2);
                }
            }
        } else if tag == 6 {
            lemma_parse_u128_sound(r);
            if let Some((ip, r1)) = parse_u128(r) {
                lemma_parse_u16_sound(r1);
                if let Some((port, r2)) = parse_u16(r1) {
                    lemma_parse_u32_sound(r2);
                    if let Some((flowinfo, r3)) = parse_u32(r2) {
                        lemma_parse_u32_sound(r3);
                        if let Some((scope_id, r4)) = parse_u32(r3) {
                            assert(s =~= encode_remote(
                                Some(SocketAddress::V6 { ip, port, flowinfo, scope_id }),
                            ) + r4);
                        }
                    }
                }
            }
        }
    }
}

proof fn lemma_parse_state(st: ArtilleryMemberState, rest: Seq<u8>)
    ensures
        parse_state(seq![state_tag(st)] + rest) == Some((st, rest)),
{
    lemma_parse_u8(state_tag(st), rest);
}

proof fn lemma_parse_state_sound(s: Seq<u8>)
    ensures
        parse_state(s) matches Some((st, r)) ==> s == seq![state_tag(st)] + r,
{
    lemma_parse_u8_sound(s);
}

proof fn lemma_parse_timestamp(t: Timestamp, rest: Seq<u8>)
    ensures
        parse_timestamp(encode_timestamp(t) + rest) == Some((t, rest)),
{
    let r1 = spec_u32_to_le_bytes(t.nanos) + rest;
    assert(encode_timestamp(t) + rest =~= spec_u64_to_le_bytes(biased_seconds(t.secs)) + r1);
    lemma_parse_u64(biased_seconds(t.secs), r1);
    lemma_parse_u32(t.nanos, rest);
}

proof fn lemma_parse_timestamp_sound(s: Seq<u8>)
    ensures
        parse_timestamp(s) matches Some((t, r)) ==> s == encode_timestamp(t) + r,
{
    lemma_parse_u64_sound(s);
    if let Some((x, r)) = parse_u64(s) {
        lemma_parse_u32_sound(r);
        if let Some((nanos, r2)) = parse_u32(r) {
            let t = Timestamp { secs: unbiased_seconds(x), nanos };
            assert(biased_seconds(t.secs) == x);
            assert(s =~= encode_timestamp(t) + r2);
        }
    }
}

/// Parsing the encoding of a record gives the record back.
proof fn lemma_parse_member(v: MemberView)
    requires
        encodable(v),
    ensures
        parse_member(encode_member(v)) == Some(v),
{
    let r7 = Seq::<u8>::empty();
    let r6 = encode_blob(v.metadata) + r7;
    let r5 = encode_labels(v.labels) + r6;
    let r4 = encode_length(v.labels.len()) + r5;
    let r3 = encode_timestamp(v.last_state_change) + r4;
    let r2 = seq![state_tag(v.member_state)] + r3;
    let r1 = spec_u64_to_le_bytes(v.incarnation_number) + r2;
    let r0 = encode_remote(v.remote_host) + r1;
    assert(encode_body(v) =~= r0);
    lemma_split_joined(v.host_key, r0);
    lemma_parse_remote(v.remote_host, r1);
    lemma_parse_u64(v.incarnation_number, r2);
    lemma_parse_state(v.member_state, r3);
    lemma_parse_timestamp(v.last_state_change, r4);
    lemma_parse_u64(v.labels.len() as u64, r5);
    lemma_parse_labels(v.labels, r6);
    lemma_parse_blob(v.metadata, r7);
}

proof fn lemma_join_body(
    a: Seq<u8>,
    b: Seq<u8>,
    c: Seq<u8>,
    d: Seq<u8>,
    e: Seq<u8>,
    f: Seq<u8>,
    g: Seq<u8>,
)
    ensures
        a + b + c + d + e + f + g == a + (b + (c + (d + (e + (f + g))))),
{
    assert(a + b + c + d + e + f + g =~= a + (b + (c + (d + (e + (f + g))))));
}

proof fn lemma_parse_body_sound(host_key: Seq<u8>, s: Seq<u8>)
    ensures
        parse_body(host_key, s) matches Some(v) ==> {
            &&& v.host_key == host_key
            &&& v.labels.len() <= u64::MAX
            &&& labels_fit(v.labels)
            &&& v.metadata.len() <= u64::MAX
            &&& s == encode_body(v)
        },
{
    if let Some(v) = parse_body(host_key, s) {
        let (remote_host, r1) = parse_remote(s).unwrap();
        let (incarnation_number, r2) = parse_u64(r1).unwrap();
        let (member_state, r3) = parse_state(r2).unwrap();
        let (last_state_change, r4) = parse_timestamp(r3).unwrap();
        let (count, r5) = parse_u64(r4).unwrap();
        let (labels, r6) = parse_labels(r5, count as nat).unwrap();
        let (metadata, r7) = parse_blob(r6).unwrap();
        assert(r7.len() == 0);
        assert(v.remote_host == remote_host && v.incarnation_number == incarnation_number);
        assert(v.member_state == member_state && v.last_state_change == last_state_change);
        assert(v.labels == labels && v.metadata == metadata && v.host_key == host_key);
        let a = encode_remote(remote_host);
        let b = spec_u64_to_le_bytes(incarnation_number);
        let c = seq![state_tag(member_state)];
        let d = encode_timestamp(last_state_change);
        let e = encode_length(labels.len());
        let f = encode_labels(labels);
        let g = encode_blob(metadata);
        assert(s == a + r1) by {
            lemma_parse_remote_sound(s);
        }
        assert(r1 == b + r2) by {
            lemma_parse_u64_sound(r1);
        }
        assert(r2 == c + r3) by {
            lemma_parse_state_sound(r2);
        }
        assert(r3 == d + r4) by {
            lemma_parse_timestamp_sound(r3);
        }
        assert(r4 == spec_u64_to_le_bytes(count) + r5) by {
            lemma_parse_u64_sound(r4);
        }
        assert(labels.len() == count && labels_fit(labels) && r5 == f + r6) by {
            lemma_parse_labels_sound(r5, count as nat);
        }
        assert(metadata.len() <= u64::MAX && r6 == g + r7) by {
            lemma_parse_blob_sound(r6);
        }
        assert(r6 == g) by {
            assert(g + r7 =~= g);
        }
        lemma_join_body(a, b, c, d, e, f, g);
    }
}

/// What parses as a record is the encoding of that record.
proof fn lemma_parse_member_sound(s: Seq<u8>)
    ensures
        parse_member(s) matches Some(v) ==> encodable(v) && s == encode_member(v),
{
    lemma_split_sound(s, 16);
    if let Some((host_key, r0)) = split(s, 16) {
        lemma_parse_body_sound(host_key, r0);
    }
}

/// Two records with the same encoding are the same record.
pub proof fn lemma_encoding_is_injective(a: MemberView, b: MemberView)
    requires
        encodable(a),
        encodable(b),
        encode_member(a) == encode_member(b),
    ensures
        a == b,
{
    lemma_parse_member(a);
    lemma_parse_member(b);
}

/// Why bytes could not be read as a member record.
#[derive(Debug, Clone, Copy, PartialEq, Eq, Structural, Hash)]
pub enum DecodeError {
    /// The bytes are not the encoding of any record.
    Malformed,
}

/// What `decode` may answer to `bytes`: a record of which they are the
/// encoding, or, where they are the encoding of none, an error.
pub open spec fn decodes_to(bytes: Seq<u8>, r: Result<ArtilleryMember, DecodeError>) -> bool {
    match r {
        Ok(m) => encodable(m@) && encode_member(m@) == bytes,
        Err(_) => forall|v: MemberView| encodable(v) ==> #[trigger] encode_member(v) != bytes,
    }
}

/// Calls `String::from_utf8`, which makes a string of the bytes where they
/// are well-formed UTF-8 and refuses them where they are not.
#[verifier::external_body]
fn string_from_utf8(bytes: Vec<u8>) -> (r: Option<String>)
    ensures
        r is Some <==> valid_utf8(bytes@),
        r matches Some(s) ==> encode_utf8(s@) == bytes@,
{
    match String::from_utf8(bytes) {
        Ok(s) => Some(s),
        Err(_) => None,
    }
}

fn put_slice(out: &mut Vec<u8>, src: &[u8])
    ensures
        final(out)@ == old(out)@ + src@,
{
    let mut i: usize = 0;
    while i < src.len()
        invariant
            i <= src@.len(),
            out@ == old(out)@ + src@.take(i as int),
        decreases src@.len() - i,
    {
        out.push(src[i]);
        assert(src@.take(i + 1) =~= src@.take(i as int).push(src@[i as int]));
        assert(out@ =~= old(out)@ + src@.take(i + 1));
        i = i + 1;
    }
    assert(src@.take(i as int) =~= src@);
}

fn put_u16(out: &mut Vec<u8>, x: u16)
    ensures
        final(out)@ == old(out)@ + spec_u16_to_le_bytes(x),
{
    let b = u16_to_le_bytes(x);
    put_slice(out, b.as_slice());
}

fn put_u32(out: &mut Vec<u8>, x: u32)
    ensures
        final(out)@ == old(out)@ + spec_u32_to_le_bytes(x),
{
    let b = u32_to_le_bytes(x);
    put_slice(out, b.as_slice());
}

fn put_u64(out: &mut Vec<u8>, x: u64)
    ensures
        final(out)@ == old(out)@ + spec_u64_to_le_bytes(x),
{
    let b = u64_to_le_bytes(x);
    put_slice(out, b.as_slice());
}

fn put_u128(out: &mut Vec<u8>, x: u128)
    ensures
        final(out)@ == old(out)@ + spec_u128_to_le_bytes(x),
{
    let b = u128_to_le_bytes(x);
    put_slice(out, b.as_slice());
}

fn put_blob(out: &mut Vec<u8>, b: &[u8])
    ensures
        final(out)@ == old(out)@ + encode_blob(b@),
        b@.len() <= u64::MAX,
{
    put_u64(out, b.len() as u64);
    put_slice(out, b);
    assert(out@ =~= old(out)@ + encode_blob(b@));
}

fn put_text(out: &mut Vec<u8>, t: &String)
    ensures
        final(out)@ == old(out)@ + encode_text(t@),
        text_fits(t@),
{
    put_blob(out, t.as_str().as_bytes());
}

fn put_remote(out: &mut Vec<u8>, r: &Option<SocketAddress>)
    ensures
        final(out)@ == old(out)@ + encode_remote(*r),
{
    match *r {
        None => {
            out.push(0u8);
            assert(out@ =~= old(out)@ + encode_remote(*r));
        },
        Some(SocketAddress::V4 { ip, port }) => {
            out.push(4u8);
            put_u32(out, ip);
            put_u16(out, port);
            assert(out@ =~= old(out)@ + encode_remote(*r));
        },
        Some(SocketAddress::V6 { ip, port, flowinfo, scope_id }) => {
            out.push(6u8);
            put_u128(out, ip);
            put_u16(out, port);
            put_u32(out, flowinfo);
            put_u32(out, scope_id);
            assert(out@ =~= old(out)@ + encode_remote(*r));
        },
    }
}

fn tag_of(s: ArtilleryMemberState) -> (t: u8)
    ensures
        t == state_tag(s),
{
    match s {
        ArtilleryMemberState::Alive => 97u8,
        ArtilleryMemberState::Suspect => 115u8,
        ArtilleryMemberState::Down => 100u8,
        ArtilleryMemberState::Left => 108u8,
    }
}

fn bias(secs: i64) -> (x: u64)
    ensures
        x == biased_seconds(secs),
{
    if secs >= 0 {
        (secs as u64) + 0x8000_0000_0000_0000u64
    } else {
        ((secs + 0x7FFF_FFFF_FFFF_FFFFi64) + 1) as u64
    }
}

fn unbias(x: u64) -> (secs: i64)
    ensures
        secs == unbiased_seconds(x),
{
    if x >= 0x8000_0000_0000_0000u64 {
        (x - 0x8000_0000_0000_0000u64) as i64
    } else {
        (x as i64) - 0x7FFF_FFFF_FFFF_FFFFi64 - 1
    }
}

proof fn lemma_encode_labels_push(ls: Seq<(Seq<char>, Seq<char>)>, l: (Seq<char>, Seq<char>))
    ensures
        encode_labels(ls.push(l)) == encode_labels(ls) + encode_label(l),
    decreases ls.len(),
{
    let pushed = ls.push(l);
    assert(pushed.len() > 0);
    assert(encode_labels(pushed) == encode_label(pushed[0]) + encode_labels(pushed.drop_first()));
    if ls.len() == 0 {
        assert(pushed.drop_first() =~= Seq::empty());
        assert(encode_labels(Seq::empty()) =~= Seq::<u8>::empty());
        assert(encode_labels(ls) =~= Seq::<u8>::empty());
        assert(encode_labels(pushed) =~= encode_labels(ls) + encode_label(l));
    } else {
        assert(pushed.drop_first() =~= ls.drop_first().push(l));
        assert(pushed[0] == ls[0]);
        lemma_encode_labels_push(ls.drop_first(), l);
        assert(encode_labels(ls) == encode_label(ls[0]) + encode_labels(ls.drop_first()));
        assert(encode_labels(pushed) =~= encode_labels(ls) + encode_label(l));
    }
}

fn put_labels(out: &mut Vec<u8>, labels: &Labels)
    ensures
        final(out)@ == old(out)@ + encode_labels(labels.deep_view()),
        labels_fit(labels.deep_view()),
{
    let ghost all = labels.deep_view();
    let mut i: usize = 0;
    assert(all.take(0) =~= Seq::empty());
    while i < labels.len()
        invariant
            i <= labels.len(),
            all == labels.deep_view(),
            out@ == old(out)@ + encode_labels(all.take(i as int)),
            forall|j: int| 0 <= j < i ==> #[trigger] label_fits(all[j]),
        decreases labels.len() - i,
    {
        let ghost before = out@;
        put_text(out, &labels[i].0);
        put_text(out, &labels[i].1);
        proof {
            let l = all[i as int];
            assert(l == (labels@[i as int].0@, labels@[i as int].1@));
            assert(label_fits(all[i as int]));
            assert(all.take(i + 1) =~= all.take(i as int).push(l));
            lemma_encode_labels_push(all.take(i as int), l);
            assert(out@ =~= before + encode_label(l));
            assert(out@ =~= old(out)@ + encode_labels(all.take(i + 1)));
        }
        i = i + 1;
    }
    assert(all.len() == labels@.len());
    assert(all.take(i as int) =~= all);
}

/// The bytes of the record with the given fields.
fn encode_record(
    host_key: &HostKey,
    remote_host: &Option<SocketAddress>,
    incarnation_number: u64,
    member_state: ArtilleryMemberState,
    last_state_change: Timestamp,
    labels: &Labels,
    metadata: &Vec<u8>,
) -> (out: Vec<u8>)
    ensures
        ({
            let v = MemberView {
                host_key: host_key@,
                remote_host: *remote_host,
                incarnation_number,
                member_state,
                last_state_change,
                labels: labels.deep_view(),
                metadata: metadata@,
            };
            out@ == encode_member(v) && encodable(v)
        }),
{
    let mut out: Vec<u8> = Vec::new();
    put_slice(&mut out, host_key.as_bytes().as_slice());
    put_remote(&mut out, remote_host);
    put_u64(&mut out, incarnation_number);
    out.push(tag_of(member_state));
    put_u64(&mut out, bias(last_state_change.secs));
    put_u32(&mut out, last_state_change.nanos);
    put_u64(&mut out, labels.len() as u64);
    put_labels(&mut out, labels);
    put_blob(&mut out, metadata.as_slice());
    proof {
        let v = MemberView {
            host_key: host_key@,
            remote_host: *remote_host,
            incarnation_number,
            member_state,
            last_state_change,
            labels: labels.deep_view(),
            metadata: metadata@,
        };
        assert(out@ =~= encode_member(v));
    }
    out
}

fn take<'a>(bytes: &'a [u8], pos: usize, n: usize) -> (r: Option<(&'a [u8], usize)>)
    requires
        pos <= bytes@.len(),
    ensures
        match r {
            Some((h, next)) => next == pos + n && next <= bytes@.len() && h@.len() == n && split(
                bytes@.skip(pos as int),
                n as int,
            ) == Some((h@, bytes@.skip(next as int))),
            None => split(bytes@.skip(pos as int), n as int) is None,
        },
{
    if bytes.len() - pos < n {
        return None;
    }
    let next: usize = pos + n;
    let h = slice_subrange(bytes, pos, next);
    assert(bytes@.subrange(pos as int, next as int) =~= bytes@.skip(pos as int).take(n as int));
    assert(bytes@.skip(pos as int).skip(n as int) =~= bytes@.skip(next as int));
    Some((h, next))
}

fn read_u8(bytes: &[u8], pos: usize) -> (r: Option<(u8, usize)>)
    requires
        pos <= bytes@.len(),
    ensures
        match r {
            Some((x, next)) => pos <= next <= bytes@.len() && parse_u8(bytes@.skip(pos as int))
                == Some((x, bytes@.skip(next as int))),
            None => parse_u8(bytes@.skip(pos as int)) is None,
        },
{
    match take(bytes, pos, 1) {
        Some((h, next)) => Some((h[0], next)),
        None => None,
    }
}

fn read_u16(bytes: &[u8], pos: usize) -> (r: Option<(u16, usize)>)
    requires
        pos <= bytes@.len(),
    ensures
        match r {
            Some((x, next)) => pos <= next <= bytes@.len() && parse_u16(bytes@.skip(pos as int))
                == Some((x, bytes@.skip(next as int))),
            None => parse_u16(bytes@.skip(pos as int)) is None,
        },
{
    match take(bytes, pos, 2) {
        Some((h, next)) => Some((u16_from_le_bytes(h), next)),
        None => None,
    }
}

fn read_u32(bytes: &[u8], pos: usize) -> (r: Option<(u32, usize)>)
    requires
        pos <= bytes@.len(),
    ensures
        match r {
            Some((x, next)) => pos <= next <= bytes@.len() && parse_u32(bytes@.skip(pos as int))
                == Some((x, bytes@.skip(next as int))),
            None => parse_u32(bytes@.skip(pos as int)) is None,
        },
{
    match take(bytes, pos, 4) {
        Some((h, next)) => Some((u32_from_le_bytes(h), next)),
        None => None,
    }
}

fn read_u64(bytes: &[u8], pos: usize) -> (r: Option<(u64, usize)>)
    requires
        pos <= bytes@.len(),
    ensures
        match r {
            Some((x, next)) => pos <= next <= bytes@.len() && parse_u64(bytes@.skip(pos as int))
                == Some((x, bytes@.skip(next as int))),
            None => parse_u64(bytes@.skip(pos as int)) is None,
        },
{
    match take(bytes, pos, 8) {
        Some((h, next)) => Some((u64_from_le_bytes(h), next)),
        None => None,
    }
}

fn read_u128(bytes: &[u8], pos: usize) -> (r: Option<(u128, usize)>)
    requires
        pos <= bytes@.len(),
    ensures
        match r {
            Some((x, next)) => pos <= next <= bytes@.len() && parse_u128(bytes@.skip(pos as int))
                == Some((x, bytes@.skip(next as int))),
            None => parse_u128(bytes@.skip(pos as int)) is None,
        },
{
    match take(bytes, pos, 16) {
        Some((h, next)) => Some((u128_from_le_bytes(h), next)),
        None => None,
    }
}

fn read_blob<'a>(bytes: &'a [u8], pos: usize) -> (r: Option<(&'a [u8], usize)>)
    requires
        pos <= bytes@.len(),
    ensures
        match r {
            Some((b, next)) => pos <= next <= bytes@.len() && parse_blob(bytes@.skip(pos as int))
                == Some((b@, bytes@.skip(next as int))),
            None => parse_blob(bytes@.skip(pos as int)) is None,
        },
{
    match read_u64(bytes, pos) {
        Some((n, p1)) => {
            if n > (bytes.len() - p1) as u64 {
                return None;
            }
            take(bytes, p1, n as usize)
        },
        None => None,
    }
}

fn read_text(bytes: &[u8], pos: usize) -> (r: Option<(String, usize)>)
    requires
        pos <= bytes@.len(),
    ensures
        match r {
            Some((t, next)) => pos <= next <= bytes@.len() && parse_text(bytes@.skip(pos as int))
                == Some((t@, bytes@.skip(next as int))),
            None => parse_text(bytes@.skip(pos as int)) is None,
        },
{
    match read_blob(bytes, pos) {
        Some((b, next)) => {
            match string_from_utf8(slice_to_vec(b)) {
                Some(t) => {
                    proof {
                        encode_utf8_decode_utf8(t@);
                    }
                    Some((t, next))
                },
                None => None,
            }
        },
        None => None,
    }
}

fn read_label(bytes: &[u8], pos: usize) -> (r: Option<((String, String), usize)>)
    requires
        pos <= bytes@.len(),
    ensures
        match r {
            Some((l, next)) => pos <= next <= bytes@.len() && parse_label(bytes@.skip(pos as int))
                == Some(((l.0@, l.1@), bytes@.skip(next as int))),
            None => parse_label(bytes@.skip(pos as int)) is None,
        },
{
    match read_text(bytes, pos) {
        Some((k, p1)) => match read_text(bytes, p1) {
            Some((v, p2)) => Some(((k, v), p2)),
            None => None,
        },
        None => None,
    }
}

/// The labels `acc` put before what `r` holds.
spec fn prepend(
    acc: Seq<(Seq<char>, Seq<char>)>,
    r: Option<(Seq<(Seq<char>, Seq<char>)>, Seq<u8>)>,
) -> Option<(Seq<(Seq<char>, Seq<char>)>, Seq<u8>)> {
    match r {
        Some((tail, rest)) => Some((acc + tail, rest)),
        None => None,
    }
}

fn read_labels(bytes: &[u8], pos: usize, count: u64) -> (r: Option<(Labels, usize)>)
    requires
        pos <= bytes@.len(),
    ensures
        match r {
            Some((ls, next)) => pos <= next <= bytes@.len() && parse_labels(
                bytes@.skip(pos as int),
                count as nat,
            ) == Some((ls.deep_view(), bytes@.skip(next as int))),
            None => parse_labels(bytes@.skip(pos as int), count as nat) is None,
        },
{
    let mut labels: Labels = Vec::new();
    let mut at: usize = pos;
    let mut i: u64 = 0;
    let ghost whole = parse_labels(bytes@.skip(pos as int), count as nat);
    proof {
        let r = parse_labels(bytes@.skip(pos as int), count as nat);
        assert(labels.deep_view() =~= Seq::empty());
        if let Some((tail, rest)) = r {
            assert(labels.deep_view() + tail =~= tail);
        }
    }
    while i < count
        invariant
            pos <= at <= bytes@.len(),
            i <= count,
            whole == parse_labels(bytes@.skip(pos as int), count as nat),
            whole == prepend(
                labels.deep_view(),
                parse_labels(bytes@.skip(at as int), (count - i) as nat),
            ),
        decreases count - i,
    {
        match read_label(bytes, at) {
            Some((l, next)) => {
                let ghost acc = labels.deep_view();
                let ghost lv = (l.0@, l.1@);
                labels.push(l);
                proof {
                    let after = parse_labels(bytes@.skip(next as int), (count - i - 1) as nat);
                    assert(labels.deep_view() =~= acc.push(lv));
                    if let Some((tail, rest)) = after {
                        assert(acc + (seq![lv] + tail) =~= acc.push(lv) + tail);
                    }
                }
                at = next;
                i = i + 1;
            },
            None => {
                return None;
            },
        }
    }
    proof {
        assert(labels.deep_view() + Seq::empty() =~= labels.deep_view());
    }
    Some((labels, at))
}

fn read_remote(bytes: &[u8], pos: usize) -> (r: Option<(Option<SocketAddress>, usize)>)
    requires
        pos <= bytes@.len(),
    ensures
        match r {
            Some((a, next)) => pos <= next <= bytes@.len() && parse_remote(
                bytes@.skip(pos as int),
            ) == Some((a, bytes@.skip(next as int))),
            None => parse_remote(bytes@.skip(pos as int)) is None,
        },
{
    let (tag, p0) = match read_u8(bytes, pos) {
        Some(found) => found,
        None => {
            return None;
        },
    };
    if tag == 0 {
        Some((None, p0))
    } else if tag == 4 {
        let (ip, p1) = match read_u32(bytes, p0) {
            Some(found) => found,
            None => {
                return None;
            },
        };
        let (port, p2) = match read_u16(bytes, p1) {
            Some(found) => found,
            None => {
                return None;
            },
        };
        Some((Some(SocketAddress::V4 { ip, port }), p2))
    } else if tag == 6 {
        let (ip, p1) = match read_u128(bytes, p0) {
            Some(found) => found,
            None => {
                return None;
            },
        };
        let (port, p2) = match read_u16(bytes, p1) {
            Some(found) => found,
            None => {
                return None;
            },
        };
        let (flowinfo, p3) = match read_u32(bytes, p2) {
            Some(found) => found,
            None => {
                return None;
            },
        };
        let (scope_id, p4) = match read_u32(bytes, p3) {
            Some(found) => found,
            None => {
                return None;
            },
        };
        Some((Some(SocketAddress::V6 { ip, port, flowinfo, scope_id }), p4))
    } else {
        None
    }
}

fn read_state(bytes: &[u8], pos: usize) -> (r: Option<(ArtilleryMemberState, usize)>)
    requires
        pos <= bytes@.len(),
    ensures
        match r {
            Some((s, next)) => pos <= next <= bytes@.len() && parse_state(bytes@.skip(pos as int))
                == Some((s, bytes@.skip(next as int))),
            None => parse_state(bytes@.skip(pos as int)) is None,
        },
{
    match read_u8(bytes, pos) {
        Some((tag, next)) => {
            if tag == 97 {
                Some((ArtilleryMemberState::Alive, next))
            } else if tag == 115 {
                Some((ArtilleryMemberState::Suspect, next))
            } else if tag == 100 {
                Some((ArtilleryMemberState::Down, next))
            } else if tag == 108 {
                Some((ArtilleryMemberState::Left, next))
            } else {
                None
            }
        },
        None => None,
    }
}

fn read_timestamp(bytes: &[u8], pos: usize) -> (r: Option<(Timestamp, usize)>)
    requires
        pos <= bytes@.len(),
    ensures
        match r {
            Some((t, next)) => pos <= next <= bytes@.len() && parse_timestamp(
                bytes@.skip(pos as int),
            ) == Some((t, bytes@.skip(next as int))),
            None => parse_timestamp(bytes@.skip(pos as int)) is None,
        },
{
    match read_u64(bytes, pos) {
        Some((x, p1)) => match read_u32(bytes, p1) {
            Some((nanos, p2)) => Some((Timestamp { secs: unbias(x), nanos }, p2)),
            None => None,
        },
        None => None,
    }
}

fn read_host_key(bytes: &[u8]) -> (r: Option<(HostKey, usize)>)
    ensures
        match r {
            Some((k, next)) => next <= bytes@.len() && split(bytes@, 16) == Some(
                (k@, bytes@.skip(next as int)),
            ),
            None => split(bytes@, 16) is None,
        },
{
    assert(bytes@.skip(0) =~= bytes@);
    match take(bytes, 0, 16) {
        Some((h, next)) => {
            let mut key: [u8; 16] = [0u8; 16];
            let mut i: usize = 0;
            while i < 16
                invariant
                    i <= 16,
                    h@.len() == 16,
                    forall|j: int| 0 <= j < i ==> key@[j] == h@[j],
                decreases 16 - i,
            {
                key[i] = h[i];
                i = i + 1;
            }
            assert(key@ =~= h@);
            Some((HostKey::from_bytes(key), next))
        },
        None => None,
    }
}

fn read_member(bytes: &[u8]) -> (r: Option<ArtilleryMember>)
    ensures
        match r {
            Some(m) => parse_member(bytes@) == Some(m@),
            None => parse_member(bytes@) is None,
        },
{
    let (host_key, p0) = match read_host_key(bytes) {
        Some(found) => found,
        None => {
            return None;
        },
    };
    let (remote_host, p1) = match read_remote(bytes, p0) {
        Some(found) => found,
        None => {
            return None;
        },
    };
    let (incarnation_number, p2) = match read_u64(bytes, p1) {
        Some(found) => found,
        None => {
            return None;
        },
    };
    let (member_state, p3) = match read_state(bytes, p2) {
        Some(found) => found,
        None => {
            return None;
        },
    };
    let (last_state_change, p4) = match read_timestamp(bytes, p3) {
        Some(found) => found,
        None => {
            return None;
        },
    };
    let (count, p5) = match read_u64(bytes, p4) {
        Some(found) => found,
        None => {
            return None;
        },
    };
    let (labels, p6) = match read_labels(bytes, p5, count) {
        Some(found) => found,
        None => {
            return None;
        },
    };
    let (metadata, p7) = match read_blob(bytes, p6) {
        Some(found) => found,
        None => {
            return None;
        },
    };
    if p7 != bytes.len() {
        return None;
    }
    Some(
        ArtilleryMember::from_parts(
            host_key,
            remote_host,
            incarnation_number,
            member_state,
            last_state_change,
            labels,
            slice_to_vec(metadata),
        ),
    )
}

impl ArtilleryMember {
    /// The record as bytes.
    pub fn encode(&self) -> (out: Vec<u8>)
        ensures
            out@ == encode_member(self@),
            encodable(self@),
    {
        encode_record(
            &self.host_key,
            &self.remote_host,
            self.incarnation_number,
            self.member_state,
            self.last_state_change,
            &self.labels,
            &self.metadata,
        )
    }

    /// The record that `bytes` are the encoding of. Bytes that are the
    /// encoding of no record are refused as a whole.
    pub fn decode(bytes: &[u8]) -> (r: Result<ArtilleryMember, DecodeError>)
        ensures
            decodes_to(bytes@, r),
    {
        match read_member(bytes) {
            Some(m) => {
                proof {
                    lemma_parse_member_sound(bytes@);
                }
                Ok(m)
            },
            None => {
                proof {
                    assert forall|v: MemberView| encodable(v) implies #[trigger] encode_member(v)
                        != bytes@ by {
                        lemma_parse_member(v);
                    }
                }
                Err(DecodeError::Malformed)
            },
        }
    }
}

impl ArtilleryStateChange {
    /// The envelope as bytes: those of the record that it carries.
    pub fn encode(&self) -> (out: Vec<u8>)
        ensures
            out@ == encode_member(self.wrapped()@),
            encodable(self.wrapped()@),
    {
        self.member().encode()
    }

    /// The envelope around the record that `bytes` are the encoding of.
    pub fn decode(bytes: &[u8]) -> (r: Result<ArtilleryStateChange, DecodeError>)
        ensures
            match r {
                Ok(c) => decodes_to(bytes@, Ok(c.wrapped())),
                Err(e) => decodes_to(bytes@, Err(e)),
            },
    {
        match ArtilleryMember::decode(bytes) {
            Ok(m) => Ok(ArtilleryStateChange::new(m)),
            Err(e) => Err(e),
        }
    }
}

/// Decoding the encoding of a record gives a record equal to it in every
/// field.
pub proof fn lemma_decode_inverts_encode(
    m: ArtilleryMember,
    r: Result<ArtilleryMember, DecodeError>,
)
    requires
        encodable(m@),
        decodes_to(encode_member(m@), r),
    ensures
        r matches Ok(d) && d@ == m@,
{
    match r {
        Ok(d) => {
            lemma_encoding_is_injective(d@, m@);
        },
        Err(_) => {
            assert(encode_member(m@) != encode_member(m@));
        },
    }
}

} // verus!
