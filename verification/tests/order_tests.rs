use std::cmp::Ordering;

use artillery_core::epidemic::address::SocketAddress;
use artillery_core::epidemic::host_key::HostKey;
use artillery_core::epidemic::member::{ArtilleryMember, ArtilleryMemberState};
use artillery_core::epidemic::time::Timestamp;

fn member(
    key: [u8; 16],
    host: Option<SocketAddress>,
    incarnation: u64,
    state: ArtilleryMemberState,
) -> ArtilleryMember {
    let now = Timestamp::new(1, 0).unwrap();
    let local = ArtilleryMember::current_at(HostKey::from_bytes(key), Vec::new(), Vec::new(), now);
    let mut made = match host {
        Some(addr) => ArtilleryMember::new_at(
            HostKey::from_bytes(key),
            addr,
            0,
            ArtilleryMemberState::Alive,
            Vec::new(),
            Vec::new(),
            now,
        ),
        None => local,
    };
    for _ in 0..incarnation {
        made.reincarnate();
    }
    made.set_state_at(state, now);
    made
}

fn v4(a: u8, b: u8, c: u8, d: u8, port: u16) -> Option<SocketAddress> {
    Some(SocketAddress::from_ipv4_octets(a, b, c, d, port))
}

fn assert_before(a: &ArtilleryMember, b: &ArtilleryMember) {
    assert_eq!(a.cmp(b), Ordering::Less);
    assert_eq!(b.cmp(a), Ordering::Greater);
    assert_eq!(a.partial_cmp(b), Some(Ordering::Less));
    assert_eq!(b.partial_cmp(a), Some(Ordering::Greater));
    assert!(a < b);
    assert!(b > a);
}

#[test]
fn states_rise_from_alive_to_left() {
    assert!(ArtilleryMemberState::Alive < ArtilleryMemberState::Suspect);
    assert!(ArtilleryMemberState::Suspect < ArtilleryMemberState::Down);
    assert!(ArtilleryMemberState::Down < ArtilleryMemberState::Left);
    assert_eq!(ArtilleryMemberState::Alive.rank(), 0);
    assert_eq!(ArtilleryMemberState::Suspect.rank(), 1);
    assert_eq!(ArtilleryMemberState::Down.rank(), 2);
    assert_eq!(ArtilleryMemberState::Left.rank(), 3);
    assert_eq!(
        ArtilleryMemberState::Down.partial_cmp(&ArtilleryMemberState::Down),
        Some(Ordering::Equal)
    );
    assert_eq!(Ord::cmp(&ArtilleryMemberState::Left, &ArtilleryMemberState::Alive), Ordering::Greater);
    assert_eq!(Ord::cmp(&ArtilleryMemberState::Alive, &ArtilleryMemberState::Suspect), Ordering::Less);
}

#[test]
fn the_host_key_decides_first() {
    let mut low = [0u8; 16];
    low[15] = 1;
    let mut high = [0u8; 16];
    high[0] = 1;
    let a = member(low, v4(200, 0, 0, 1, 9), 9, ArtilleryMemberState::Left);
    let b = member(high, None, 0, ArtilleryMemberState::Alive);
    assert_before(&a, &b);
    let mut first = [7u8; 16];
    first[8] = 6;
    let c = member(first, v4(200, 0, 0, 1, 9), 9, ArtilleryMemberState::Left);
    let d = member([7u8; 16], None, 0, ArtilleryMemberState::Alive);
    assert_before(&c, &d);
}

#[test]
fn the_local_node_comes_before_every_address() {
    let a = member([1u8; 16], None, 9, ArtilleryMemberState::Left);
    let b = member([1u8; 16], v4(0, 0, 0, 0, 0), 0, ArtilleryMemberState::Alive);
    assert_before(&a, &b);
}

#[test]
fn addresses_rank_by_their_printed_form() {
    let k = [1u8; 16];
    let s = ArtilleryMemberState::Alive;
    let v6 = |ip: u128, port: u16, flowinfo: u32, scope_id: u32| {
        Some(SocketAddress::V6 { ip, port, flowinfo, scope_id })
    };
    let all = [
        member(k, v4(10, 0, 0, 1, 80), 0, s),
        member(k, v4(10, 0, 0, 1, 81), 0, s),
        member(k, v4(9, 0, 0, 1, 80), 0, s),
        member(k, v6(0, 0, 0, 1), 0, s),
        member(k, v6(1, 0, 0, 0), 0, s),
        member(k, v6(0, 0, 0, 0), 0, s),
        member(k, v6(0, 1, 0, 0), 0, s),
    ];
    for i in 0..all.len() {
        for j in (i + 1)..all.len() {
            assert_before(&all[i], &all[j]);
        }
    }
}

#[test]
fn a_port_ranks_as_text_not_as_a_number() {
    let a = member([0u8; 16], v4(127, 0, 0, 1, 9), 0, ArtilleryMemberState::Alive);
    let b = member([0u8; 16], v4(127, 0, 0, 1, 10), 0, ArtilleryMemberState::Alive);
    assert_eq!(a.partial_cmp(&b), Some(Ordering::Greater));
    assert_eq!(b.partial_cmp(&a), Some(Ordering::Less));
    assert_before(&b, &a);
    let short = member([0u8; 16], v4(127, 0, 0, 1, 8), 0, ArtilleryMemberState::Alive);
    let long = member([0u8; 16], v4(127, 0, 0, 1, 80), 0, ArtilleryMemberState::Alive);
    assert_before(&short, &long);
}

#[test]
fn the_flow_information_does_not_rank() {
    let k = [2u8; 16];
    let one = SocketAddress::V6 { ip: 7, port: 1, flowinfo: 1, scope_id: 0 };
    let two = SocketAddress::V6 { ip: 7, port: 1, flowinfo: 2, scope_id: 0 };
    let a = member(k, Some(one), 3, ArtilleryMemberState::Down);
    let b = member(k, Some(two), 3, ArtilleryMemberState::Down);
    assert_eq!(a.cmp(&b), Ordering::Equal);
    assert_eq!(b.cmp(&a), Ordering::Equal);
    assert_eq!(a.partial_cmp(&b), Some(Ordering::Equal));
    assert!(a != b);
    let later = member(k, Some(one), 4, ArtilleryMemberState::Alive);
    assert_before(&b, &later);
}

#[test]
fn the_incarnation_decides_before_the_state() {
    let a = member([1u8; 16], v4(1, 2, 3, 4, 5), 1, ArtilleryMemberState::Left);
    let b = member([1u8; 16], v4(1, 2, 3, 4, 5), 2, ArtilleryMemberState::Alive);
    assert_before(&a, &b);
}

#[test]
fn the_state_decides_last() {
    let a = member([1u8; 16], v4(1, 2, 3, 4, 5), 2, ArtilleryMemberState::Alive);
    let b = member([1u8; 16], v4(1, 2, 3, 4, 5), 2, ArtilleryMemberState::Suspect);
    let c = member([1u8; 16], v4(1, 2, 3, 4, 5), 2, ArtilleryMemberState::Down);
    let d = member([1u8; 16], v4(1, 2, 3, 4, 5), 2, ArtilleryMemberState::Left);
    assert_before(&a, &b);
    assert_before(&b, &c);
    assert_before(&c, &d);
    assert_before(&a, &d);
}

#[test]
fn timestamp_labels_and_metadata_do_not_rank() {
    let a = ArtilleryMember::current_at(
        HostKey::from_bytes([1u8; 16]),
        vec![("k".to_string(), "v".to_string())],
        vec![1, 2, 3],
        Timestamp::new(1, 0).unwrap(),
    );
    let b = ArtilleryMember::current_at(
        HostKey::from_bytes([1u8; 16]),
        Vec::new(),
        Vec::new(),
        Timestamp::new(2, 0).unwrap(),
    );
    assert_eq!(a.cmp(&b), Ordering::Equal);
    assert_eq!(b.cmp(&a), Ordering::Equal);
    assert_eq!(a.partial_cmp(&b), Some(Ordering::Equal));
    assert!(a != b);
    assert!(!(a < b) && !(b < a));
}

#[test]
fn the_ranking_is_a_strict_total_order_on_distinct_hosts() {
    let states = [
        ArtilleryMemberState::Left,
        ArtilleryMemberState::Alive,
        ArtilleryMemberState::Down,
        ArtilleryMemberState::Suspect,
    ];
    let mut all = Vec::new();
    for n in 0..12u8 {
        let mut key = [0u8; 16];
        key[(n % 4) as usize] = 200 - n;
        key[15] = n;
        let host = if n % 3 == 0 { None } else { v4(n, 0, 0, 1, 2000) };
        all.push(member(key, host, (11 - n) as u64, states[(n % 4) as usize]));
    }
    for a in &all {
        assert_eq!(a.cmp(a), Ordering::Equal);
        assert!(!(a < a));
    }
    for (i, a) in all.iter().enumerate() {
        for (j, b) in all.iter().enumerate() {
            if i != j {
                assert!((a < b) != (b < a));
            }
            for c in &all {
                if a < b && b < c {
                    assert!(a < c);
                }
            }
        }
    }
}
