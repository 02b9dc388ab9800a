use artillery_core::epidemic::address::SocketAddress;
use artillery_core::epidemic::host_key::HostKey;
use artillery_core::epidemic::member::{ArtilleryMember, ArtilleryMemberState, ArtilleryStateChange};
use artillery_core::epidemic::time::Timestamp;
use artillery_core::epidemic::wire::DecodeError;

use chrono::{Duration, Utc};

fn plain_key() -> HostKey {
    let mut bytes = [0u8; 16];
    for (i, b) in bytes.iter_mut().enumerate() {
        *b = i as u8;
    }
    HostKey::from_bytes(bytes)
}

fn bare() -> ArtilleryMember {
    ArtilleryMember::from_parts(
        plain_key(),
        None,
        1,
        ArtilleryMemberState::Alive,
        Timestamp::new(0, 0).unwrap(),
        Vec::new(),
        Vec::new(),
    )
}

fn bare_bytes() -> Vec<u8> {
    let mut expected: Vec<u8> = (0u8..16).collect();
    expected.push(0);
    expected.extend_from_slice(&[1, 0, 0, 0, 0, 0, 0, 0]);
    expected.push(b'a');
    expected.extend_from_slice(&[0, 0, 0, 0, 0, 0, 0, 0x80]);
    expected.extend_from_slice(&[0, 0, 0, 0]);
    expected.extend_from_slice(&[0, 0, 0, 0, 0, 0, 0, 0]);
    expected.extend_from_slice(&[0, 0, 0, 0, 0, 0, 0, 0]);
    expected
}

fn full() -> ArtilleryMember {
    ArtilleryMember::from_parts(
        plain_key(),
        Some(SocketAddress::V6 { ip: 1, port: 0x1234, flowinfo: 5, scope_id: 6 }),
        u64::MAX,
        ArtilleryMemberState::Left,
        Timestamp::new(-1, 999_999_999).unwrap(),
        vec![
            ("k".to_string(), "v".to_string()),
            ("clé".to_string(), "値 🚀".to_string()),
            (String::new(), String::new()),
        ],
        vec![0, 255, 9],
    )
}

#[test]
fn test_member_encode_decode() {
    let member = ArtilleryMember::from_parts(
        HostKey::from_bytes(*uuid::Uuid::new_v4().as_bytes()),
        Some(SocketAddress::from_ipv4_octets(127, 0, 0, 1, 1337)),
        123,
        ArtilleryMemberState::Alive,
        {
            let then = Utc::now() - Duration::days(1);
            Timestamp::new(then.timestamp(), then.timestamp_subsec_nanos()).unwrap()
        },
        vec![("label_name".to_string(), "label_value".to_string())],
        "metadata".as_bytes().to_vec(),
    );

    let encoded = member.encode();
    println!("{}", encoded.len());

    let decoded: ArtilleryMember = ArtilleryMember::decode(&encoded).unwrap();

    assert_eq!(decoded, member);
}

#[test]
fn a_bare_record_is_encoded_field_by_field() {
    assert_eq!(bare().encode(), bare_bytes());
    assert_eq!(ArtilleryMember::decode(&bare_bytes()), Ok(bare()));
}

#[test]
fn an_ipv4_record_is_encoded_field_by_field() {
    let member = ArtilleryMember::from_parts(
        plain_key(),
        Some(SocketAddress::from_ipv4_octets(127, 0, 0, 1, 1337)),
        0x0102_0304_0506_0708,
        ArtilleryMemberState::Suspect,
        Timestamp::new(1, 2).unwrap(),
        vec![("k".to_string(), "é".to_string())],
        vec![9],
    );
    let mut expected: Vec<u8> = (0u8..16).collect();
    expected.push(4);
    expected.extend_from_slice(&[1, 0, 0, 127]);
    expected.extend_from_slice(&[0x39, 0x05]);
    expected.extend_from_slice(&[8, 7, 6, 5, 4, 3, 2, 1]);
    expected.push(b's');
    expected.extend_from_slice(&[1, 0, 0, 0, 0, 0, 0, 0x80]);
    expected.extend_from_slice(&[2, 0, 0, 0]);
    expected.extend_from_slice(&[1, 0, 0, 0, 0, 0, 0, 0]);
    expected.extend_from_slice(&[1, 0, 0, 0, 0, 0, 0, 0, b'k']);
    expected.extend_from_slice(&[2, 0, 0, 0, 0, 0, 0, 0, 0xC3, 0xA9]);
    expected.extend_from_slice(&[1, 0, 0, 0, 0, 0, 0, 0, 9]);
    assert_eq!(member.encode(), expected);
    assert_eq!(ArtilleryMember::decode(&expected), Ok(member));
}

#[test]
fn an_ipv6_record_comes_back_as_it_was() {
    let encoded = full().encode();
    assert_eq!(encoded[16], 6);
    assert_eq!(&encoded[17..33], &1u128.to_le_bytes());
    assert_eq!(&encoded[33..35], &[0x34, 0x12]);
    assert_eq!(&encoded[35..43], &[5, 0, 0, 0, 6, 0, 0, 0]);
    assert_eq!(&encoded[43..51], &[0xFF; 8]);
    assert_eq!(encoded[51], b'l');
    assert_eq!(&encoded[52..60], &[0xFF, 0xFF, 0xFF, 0xFF, 0xFF, 0xFF, 0xFF, 0x7F]);
    assert_eq!(&encoded[60..64], &999_999_999u32.to_le_bytes());
    let decoded = ArtilleryMember::decode(&encoded).unwrap();
    assert_eq!(decoded, full());
    assert_eq!(decoded.labels()[1], ("clé".to_string(), "値 🚀".to_string()));
    assert_eq!(decoded.encode(), encoded);
}

#[test]
fn every_state_and_the_extreme_seconds_come_back() {
    for state in [
        ArtilleryMemberState::Alive,
        ArtilleryMemberState::Suspect,
        ArtilleryMemberState::Down,
        ArtilleryMemberState::Left,
    ] {
        for secs in [i64::MIN, -1, 0, 1, i64::MAX] {
            let member = ArtilleryMember::from_parts(
                plain_key(),
                None,
                7,
                state,
                Timestamp { secs, nanos: u32::MAX },
                Vec::new(),
                vec![1],
            );
            assert_eq!(ArtilleryMember::decode(&member.encode()), Ok(member));
        }
    }
    let current = ArtilleryMember::current(plain_key(), Vec::new(), Vec::new());
    let decoded = ArtilleryMember::decode(&current.encode()).unwrap();
    assert!(decoded.is_current());
    assert_eq!(decoded, current);
}

#[test]
fn a_record_cut_short_is_refused() {
    for member in [bare(), full()] {
        let encoded = member.encode();
        for cut in 0..encoded.len() {
            assert_eq!(ArtilleryMember::decode(&encoded[..cut]), Err(DecodeError::Malformed));
        }
    }
}

#[test]
fn bytes_after_the_record_are_refused() {
    let mut encoded = full().encode();
    encoded.push(0);
    assert_eq!(ArtilleryMember::decode(&encoded), Err(DecodeError::Malformed));
}

#[test]
fn an_unknown_state_letter_is_refused() {
    let mut encoded = bare_bytes();
    for tag in 0..=255u8 {
        encoded[25] = tag;
        let known = matches!(tag, b'a' | b's' | b'd' | b'l');
        assert_eq!(ArtilleryMember::decode(&encoded).is_ok(), known);
    }
}

#[test]
fn an_unknown_kind_of_address_is_refused() {
    let mut encoded = bare_bytes();
    for tag in 1..=255u8 {
        encoded[16] = tag;
        assert_eq!(ArtilleryMember::decode(&encoded), Err(DecodeError::Malformed));
    }
}

#[test]
fn text_that_is_not_utf8_is_refused() {
    let member = ArtilleryMember::from_parts(
        plain_key(),
        None,
        1,
        ArtilleryMemberState::Alive,
        Timestamp::new(0, 0).unwrap(),
        vec![("k".to_string(), "v".to_string())],
        Vec::new(),
    );
    let mut encoded = member.encode();
    let key_at = 16 + 1 + 8 + 1 + 12 + 8 + 8;
    assert_eq!(encoded[key_at], b'k');
    for bad in [0x80u8, 0xBF, 0xC3, 0xF8, 0xFF] {
        encoded[key_at] = bad;
        assert_eq!(ArtilleryMember::decode(&encoded), Err(DecodeError::Malformed));
    }
    encoded[key_at] = b'q';
    let decoded = ArtilleryMember::decode(&encoded).unwrap();
    assert_eq!(decoded.labels(), vec![("q".to_string(), "v".to_string())]);
}

#[test]
fn a_length_beyond_the_bytes_is_refused() {
    let mut encoded = bare_bytes();
    let count_at = 16 + 1 + 8 + 1 + 12;
    encoded[count_at] = 1;
    assert_eq!(ArtilleryMember::decode(&encoded), Err(DecodeError::Malformed));
    let mut huge = bare_bytes();
    for b in &mut huge[count_at..count_at + 8] {
        *b = 0xFF;
    }
    assert_eq!(ArtilleryMember::decode(&huge), Err(DecodeError::Malformed));
    let mut long = bare_bytes();
    let metadata_at = count_at + 8;
    for b in &mut long[metadata_at..metadata_at + 8] {
        *b = 0xFF;
    }
    assert_eq!(ArtilleryMember::decode(&long), Err(DecodeError::Malformed));
}

#[test]
fn a_state_change_is_encoded_as_its_member() {
    let change = ArtilleryStateChange::new(full());
    let encoded = change.encode();
    assert_eq!(encoded, full().encode());
    assert_eq!(ArtilleryStateChange::decode(&encoded), Ok(change));
    assert_eq!(ArtilleryStateChange::decode(&encoded[1..]), Err(DecodeError::Malformed));
}

#[test]
fn different_records_have_different_encodings() {
    let base = full();
    let mut others = vec![bare(), base.member_by_changing_host(SocketAddress::from_ipv4_octets(1, 2, 3, 4, 5))];
    let mut older = full();
    older.set_state_at(ArtilleryMemberState::Down, Timestamp::new(-1, 999_999_999).unwrap());
    others.push(older);
    others.push(ArtilleryMember::from_parts(
        plain_key(),
        base.remote_host(),
        u64::MAX,
        ArtilleryMemberState::Left,
        Timestamp::new(-1, 999_999_999).unwrap(),
        vec![("kv".to_string(), String::new()), ("clé".to_string(), "値 🚀".to_string()), (String::new(), String::new())],
        vec![0, 255, 9],
    ));
    for other in &others {
        assert_ne!(other, &base);
        assert_ne!(other.encode(), base.encode());
    }
}
