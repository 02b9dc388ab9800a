use crate::constants::{CONST_INFECTION_PORT, CONST_PACKET_SIZE};
use crate::epidemic::address::{ipv4_bits, SocketAddress};
use crate::epidemic::member::{clone_bytes, clone_labels, Labels, Metadata};
use crate::epidemic::time::Duration;
use vstd::prelude::*;

verus! {

/// What a node is started with: the secret of its cluster, the timing of
/// its failure detector, the address it listens on, and what it tells the
/// others of itself. It is made once and read from then on.
#[derive(Debug)]
pub struct ClusterConfig {
    /// The secret shared by the nodes of one cluster.
    pub cluster_key: Vec<u8>,
    /// How long a node waits between two probes.
    pub ping_interval: Duration,
    /// The largest message, in bytes, that a node sends.
    pub network_mtu: usize,
    /// How many other nodes are asked to probe a member that did not answer.
    pub ping_request_host_count: usize,
    /// How long a node waits for the answer to a probe.
    pub ping_timeout: Duration,
    /// The address on which the node listens.
    pub listen_addr: SocketAddress,
    /// Key/value pairs that the node announces of itself.
    pub labels: Labels,
    /// Bytes that the node announces of itself.
    pub metadata: Metadata,
}

/// Why a configuration could not be made.
#[derive(Debug, Clone, Copy, PartialEq, Eq, Structural, Hash)]
pub enum ConfigError {
    /// The listen address resolved to no socket address at all.
    NoListenAddress,
}

/// The cluster key of a node that was given none: the text `default`.
pub open spec fn default_cluster_key() -> Seq<u8> {
    seq![100u8, 101u8, 102u8, 97u8, 117u8, 108u8, 116u8]
}

/// The address on which a node listens unless it is told otherwise:
/// 127.0.0.1 on the protocol's own port.
pub open spec fn default_listen_addr() -> SocketAddress {
    SocketAddress::V4 { ip: ipv4_bits(127, 0, 0, 1) as u32, port: CONST_INFECTION_PORT }
}

impl ClusterConfig {
    /// The configuration that differs from the default one in nothing but
    /// the listen address.
    pub open spec fn spec_listening_on(&self, addr: SocketAddress) -> bool {
        &&& self.cluster_key@ == default_cluster_key()
        &&& self.ping_interval == Duration { secs: 1, nanos: 0 }
        &&& self.network_mtu == CONST_PACKET_SIZE
        &&& self.ping_request_host_count == 3
        &&& self.ping_timeout == Duration { secs: 3, nanos: 0 }
        &&& self.listen_addr == addr
        &&& self.labels@ == Seq::<(String, String)>::empty()
        &&& self.metadata@ == Seq::<u8>::empty()
    }

    /// The default configuration for a node whose listen address resolved
    /// to `resolved`. The node listens on the first of these addresses.
    /// Where there is none, no configuration is made.
    pub fn listening_on(resolved: &Vec<SocketAddress>) -> (r: Result<ClusterConfig, ConfigError>)
        ensures
            resolved@.len() == 0 ==> r == Err::<ClusterConfig, ConfigError>(
                ConfigError::NoListenAddress,
            ),
            resolved@.len() > 0 ==> r is Ok && r->Ok_0.spec_listening_on(resolved@[0]),
    {
        if resolved.len() == 0 {
            return Err(ConfigError::NoListenAddress);
        }
        Ok(
            ClusterConfig {
                cluster_key: vec![100u8, 101u8, 102u8, 97u8, 117u8, 108u8, 116u8],
                ping_interval: Duration::seconds(1),
                network_mtu: CONST_PACKET_SIZE,
                ping_request_host_count: 3,
                ping_timeout: Duration::seconds(3),
                listen_addr: resolved[0],
                labels: Vec::new(),
                metadata: Vec::new(),
            },
        )
    }
}

impl Clone for ClusterConfig {
    fn clone(&self) -> (r: ClusterConfig)
        ensures
            r.cluster_key@ == self.cluster_key@,
            r.ping_interval == self.ping_interval,
            r.network_mtu == self.network_mtu,
            r.ping_request_host_count == self.ping_request_host_count,
            r.ping_timeout == self.ping_timeout,
            r.listen_addr == self.listen_addr,
            r.labels@ == self.labels@,
            r.metadata@ == self.metadata@,
    {
        ClusterConfig {
            cluster_key: clone_bytes(&self.cluster_key),
            ping_interval: self.ping_interval,
            network_mtu: self.network_mtu,
            ping_request_host_count: self.ping_request_host_count,
            ping_timeout: self.ping_timeout,
            listen_addr: self.listen_addr,
            labels: clone_labels(&self.labels),
            metadata: clone_bytes(&self.metadata),
        }
    }
}

impl Default for ClusterConfig {
    fn default() -> (r: ClusterConfig)
        ensures
            r.spec_listening_on(default_listen_addr()),
    {
        let directed = SocketAddress::from_ipv4_octets(127, 0, 0, 1, CONST_INFECTION_PORT);
        let mut resolved: Vec<SocketAddress> = Vec::new();
        resolved.push(directed);
        match ClusterConfig::listening_on(&resolved) {
            Ok(config) => config,
            Err(_) => {
                proof {
                    assert(false);
                }
                ClusterConfig {
                    cluster_key: Vec::new(),
                    ping_interval: Duration::seconds(1),
                    network_mtu: CONST_PACKET_SIZE,
                    ping_request_host_count: 3,
                    ping_timeout: Duration::seconds(3),
                    listen_addr: directed,
                    labels: Vec::new(),
                    metadata: Vec::new(),
                }
            },
        }
    }
}

} // verus!
