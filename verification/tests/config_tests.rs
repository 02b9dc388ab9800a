use artillery_core::constants::{CONST_INFECTION_PORT, CONST_PACKET_SIZE};
use artillery_core::epidemic::address::SocketAddress;
use artillery_core::epidemic::cluster_config::{ClusterConfig, ConfigError};
use artillery_core::epidemic::host_key::HostKey;
use artillery_core::epidemic::time::{Duration, Timestamp};

#[test]
fn default_config_has_the_documented_values() {
    let config = ClusterConfig::default();
    assert_eq!(config.cluster_key, b"default".to_vec());
    assert_eq!(config.ping_interval, Duration::seconds(1));
    assert_eq!(config.network_mtu, CONST_PACKET_SIZE);
    assert_eq!(config.network_mtu, 65_536);
    assert_eq!(config.ping_request_host_count, 3);
    assert_eq!(config.ping_timeout, Duration::seconds(3));
    assert_eq!(config.listen_addr, SocketAddress::from_ipv4_octets(127, 0, 0, 1, CONST_INFECTION_PORT));
    assert_eq!(config.listen_addr, SocketAddress::V4 { ip: 0x7F00_0001, port: 2000 });
    assert!(config.labels.is_empty());
    assert!(config.metadata.is_empty());
}

#[test]
fn config_without_a_resolved_address_is_refused() {
    let resolved: Vec<SocketAddress> = Vec::new();
    match ClusterConfig::listening_on(&resolved) {
        Err(error) => assert_eq!(error, ConfigError::NoListenAddress),
        Ok(_) => panic!("a configuration was made without a listen address"),
    }
}

#[test]
fn config_listens_on_the_first_resolved_address() {
    let first = SocketAddress::V6 { ip: 1, port: 4000, flowinfo: 0, scope_id: 0 };
    let second = SocketAddress::from_ipv4_octets(127, 0, 0, 1, 4000);
    let config = ClusterConfig::listening_on(&vec![first, second]).unwrap();
    assert_eq!(config.listen_addr, first);
    assert_eq!(config.cluster_key, b"default".to_vec());
    assert_eq!(config.ping_interval, Duration::seconds(1));
    assert_eq!(config.ping_timeout, Duration::seconds(3));
    assert_eq!(config.ping_request_host_count, 3);
    assert_eq!(config.network_mtu, CONST_PACKET_SIZE);
    assert!(config.labels.is_empty());
    assert!(config.metadata.is_empty());
}

#[test]
fn ipv4_octets_are_read_big_endian() {
    assert_eq!(
        SocketAddress::from_ipv4_octets(127, 0, 0, 1, 1337),
        SocketAddress::V4 { ip: 0x7F00_0001, port: 1337 }
    );
    assert_eq!(
        SocketAddress::from_ipv4_octets(255, 255, 255, 255, 65_535),
        SocketAddress::V4 { ip: u32::MAX, port: 65_535 }
    );
    assert_eq!(
        SocketAddress::from_ipv4_octets(1, 2, 3, 4, 0),
        SocketAddress::V4 { ip: 0x0102_0304, port: 0 }
    );
    assert_eq!(SocketAddress::from_ipv4_octets(1, 2, 3, 4, 5).port(), 5);
    assert_eq!(SocketAddress::V6 { ip: 9, port: 6, flowinfo: 7, scope_id: 8 }.port(), 6);
}

#[test]
fn host_keys_are_their_bytes() {
    let mut bytes = [0u8; 16];
    for (i, b) in bytes.iter_mut().enumerate() {
        *b = i as u8;
    }
    let key = HostKey::from_bytes(bytes);
    assert_eq!(key.as_bytes(), &bytes);
    assert_eq!(key, HostKey::from_bytes(bytes));
    bytes[15] = 0;
    assert_ne!(key, HostKey::from_bytes(bytes));
    let random = uuid::Uuid::new_v4();
    assert_eq!(HostKey::from_bytes(*random.as_bytes()).as_bytes(), random.as_bytes());
}

#[test]
fn timestamps_and_durations_refuse_a_nanosecond_part_of_a_second_or_more() {
    assert_eq!(Timestamp::new(5, 999_999_999), Some(Timestamp { secs: 5, nanos: 999_999_999 }));
    assert_eq!(Timestamp::new(5, 1_000_000_000), None);
    assert_eq!(Timestamp::new(-5, 0), Some(Timestamp { secs: -5, nanos: 0 }));
    assert_eq!(Duration::new(5, 999_999_999), Some(Duration { secs: 5, nanos: 999_999_999 }));
    assert_eq!(Duration::new(5, 1_000_000_000), None);
    assert_eq!(Duration::seconds(-7), Duration { secs: -7, nanos: 0 });
}

#[test]
fn the_clock_is_read_in_seconds_since_the_epoch() {
    let before = chrono::Utc::now();
    let now = Timestamp::now();
    let after = chrono::Utc::now();
    assert!(now.nanos < 1_000_000_000);
    assert!(before.timestamp() <= now.secs && now.secs <= after.timestamp());
    let read = chrono::DateTime::from_timestamp(now.secs, now.nanos).unwrap();
    assert!(before <= read && read <= after);
}

#[test]
fn timestamps_compare_across_seconds() {
    let then = Timestamp::new(10, 900_000_000).unwrap();
    let wait = Duration::new(0, 200_000_000).unwrap();
    assert!(!then.older_than(wait, Timestamp::new(11, 100_000_000).unwrap()));
    assert!(then.older_than(wait, Timestamp::new(11, 100_000_001).unwrap()));
    assert_eq!(then.millis_until(Timestamp::new(11, 100_000_000).unwrap()), Some(200));
    assert_eq!(Timestamp::new(11, 100_000_000).unwrap().millis_until(then), Some(-200));
}

#[test]
fn a_cloned_config_has_the_same_fields() {
    let mut config = ClusterConfig::default();
    config.cluster_key = vec![1, 2, 3];
    config.labels = vec![("zone".to_string(), "a".to_string())];
    config.metadata = vec![9];
    config.network_mtu = 1_400;
    let copy = config.clone();
    assert_eq!(copy.cluster_key, vec![1, 2, 3]);
    assert_eq!(copy.ping_interval, config.ping_interval);
    assert_eq!(copy.network_mtu, 1_400);
    assert_eq!(copy.ping_request_host_count, config.ping_request_host_count);
    assert_eq!(copy.ping_timeout, config.ping_timeout);
    assert_eq!(copy.listen_addr, config.listen_addr);
    assert_eq!(copy.labels, vec![("zone".to_string(), "a".to_string())]);
    assert_eq!(copy.metadata, vec![9]);
}
