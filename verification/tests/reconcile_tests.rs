use artillery_core::epidemic::address::SocketAddress;
use artillery_core::epidemic::host_key::HostKey;
use artillery_core::epidemic::member::{
    most_uptodate_member_data, ArtilleryMember, ArtilleryMemberState,
};
use artillery_core::epidemic::time::Timestamp;

use artillery_core::epidemic::member::ArtilleryMemberState::{Alive, Down, Left, Suspect};

fn lhs(state: ArtilleryMemberState, incarnation: u64) -> ArtilleryMember {
    ArtilleryMember::new_at(
        HostKey::from_bytes([3u8; 16]),
        SocketAddress::from_ipv4_octets(10, 0, 0, 1, 2000),
        incarnation,
        state,
        vec![("side".to_string(), "lhs".to_string())],
        vec![1],
        Timestamp::new(10, 0).unwrap(),
    )
}

fn rhs(state: ArtilleryMemberState, incarnation: u64) -> ArtilleryMember {
    ArtilleryMember::new_at(
        HostKey::from_bytes([3u8; 16]),
        SocketAddress::from_ipv4_octets(10, 0, 0, 1, 2000),
        incarnation,
        state,
        vec![("side".to_string(), "rhs".to_string())],
        vec![2],
        Timestamp::new(20, 0).unwrap(),
    )
}

fn lhs_wins(a: (ArtilleryMemberState, u64), b: (ArtilleryMemberState, u64)) -> bool {
    let left = lhs(a.0, a.1);
    let right = rhs(b.0, b.1);
    let winner = most_uptodate_member_data(&left, &right);
    assert!(winner == &left || winner == &right);
    winner.metadata() == vec![1]
}

#[test]
fn alive_against_suspect_at_equal_incarnation_loses() {
    assert!(!lhs_wins((Alive, 5), (Suspect, 5)));
}

#[test]
fn suspect_against_alive_at_equal_incarnation_wins() {
    assert!(lhs_wins((Suspect, 5), (Alive, 5)));
}

#[test]
fn down_wins_against_alive_whatever_the_incarnation() {
    assert!(lhs_wins((Down, 1), (Alive, 99)));
}

#[test]
fn left_wins_against_alive_whatever_the_incarnation() {
    assert!(lhs_wins((Left, 0), (Alive, 1000)));
}

#[test]
fn down_against_down_goes_to_the_second() {
    assert!(!lhs_wins((Down, 5), (Down, 5)));
}

#[test]
fn alive_needs_a_newer_incarnation() {
    assert!(lhs_wins((Alive, 6), (Suspect, 5)));
    assert!(!lhs_wins((Alive, 4), (Suspect, 5)));
    assert!(lhs_wins((Alive, 6), (Alive, 5)));
    assert!(!lhs_wins((Alive, 5), (Alive, 5)));
    assert!(!lhs_wins((Alive, 4), (Alive, 5)));
}

#[test]
fn suspect_needs_a_newer_incarnation_against_suspect() {
    assert!(lhs_wins((Suspect, 6), (Suspect, 5)));
    assert!(!lhs_wins((Suspect, 5), (Suspect, 5)));
    assert!(!lhs_wins((Suspect, 4), (Suspect, 5)));
}

#[test]
fn suspect_loses_to_a_newer_alive() {
    assert!(!lhs_wins((Suspect, 4), (Alive, 5)));
    assert!(lhs_wins((Suspect, 6), (Alive, 5)));
}

#[test]
fn down_wins_against_suspect() {
    assert!(lhs_wins((Down, 0), (Suspect, u64::MAX)));
    assert!(lhs_wins((Down, u64::MAX), (Suspect, 0)));
}

#[test]
fn left_wins_against_every_state() {
    for other in [Alive, Suspect, Down, Left] {
        assert!(lhs_wins((Left, 0), (other, u64::MAX)));
        assert!(lhs_wins((Left, 7), (other, 7)));
    }
}

#[test]
fn nothing_overrides_down_or_left_but_the_table() {
    for incarnation in [0, 5, u64::MAX] {
        assert!(!lhs_wins((Alive, incarnation), (Down, 5)));
        assert!(!lhs_wins((Alive, incarnation), (Left, 5)));
        assert!(!lhs_wins((Suspect, incarnation), (Down, 5)));
        assert!(!lhs_wins((Suspect, incarnation), (Left, 5)));
        assert!(!lhs_wins((Down, incarnation), (Down, 5)));
        assert!(!lhs_wins((Down, incarnation), (Left, 5)));
    }
}

#[test]
fn the_winner_is_returned_as_it_was_given() {
    let left = lhs(Down, 1);
    let right = rhs(Alive, 99);
    assert_eq!(most_uptodate_member_data(&left, &right), &left);
    assert_eq!(most_uptodate_member_data(&right, &left), &left);
    let tie = rhs(Down, 1);
    assert_eq!(most_uptodate_member_data(&left, &tie), &tie);
    assert_eq!(most_uptodate_member_data(&tie, &left), &left);
}

#[test]
fn the_same_states_and_incarnations_are_decided_alike() {
    let states = [Alive, Suspect, Down, Left];
    for a in states {
        for b in states {
            for (i, j) in [(0u64, 0u64), (1, 2), (2, 1)] {
                let first = lhs_wins((a, i), (b, j));
                let left = rhs(a, i);
                let right = lhs(b, j);
                let second = most_uptodate_member_data(&left, &right) == &left;
                assert_eq!(first, second);
            }
        }
    }
}

#[test]
fn the_order_of_the_arguments_matters_in_a_tie_only() {
    let states = [Alive, Suspect, Down, Left];
    for a in states {
        for b in states {
            for (i, j) in [(0u64, 0u64), (1, 2), (2, 1)] {
                let told_apart = a != b || (i != j && (a == Alive || a == Suspect));
                let left = lhs(a, i);
                let right = rhs(b, j);
                let forth = most_uptodate_member_data(&left, &right);
                let back = most_uptodate_member_data(&right, &left);
                if told_apart {
                    assert_eq!(forth, back);
                }
                if a == Left && b != Left {
                    assert_eq!(forth, &left);
                    assert_eq!(back, &left);
                }
            }
        }
    }
}
