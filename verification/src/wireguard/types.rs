use vstd::prelude::*;

verus! {

/// An X25519 key pair, both halves in standard Base64 with padding.
#[derive(Debug, Clone)]
pub struct WireGuardKeyPair {
    pub private_key: String,
    pub public_key: String,
}

/// One `[Peer]` section of a WireGuard configuration.
#[derive(Debug, Clone)]
pub struct WireGuardPeerConfig {
    pub public_key: String,
    pub allowed_ips: Vec<String>,
    pub endpoint: Option<String>,
    pub persistent_keepalive: Option<u16>,
}

/// A WireGuard interface: its own key, its address (such as
/// `10.200.0.2/24`), its port and its peers.
#[derive(Debug, Clone)]
pub struct WireGuardInterfaceConfig {
    pub private_key: String,
    pub address: String,
    pub listen_port: Option<u16>,
    pub peers: Vec<WireGuardPeerConfig>,
}

/// A request for a tunnel between two registered nodes.
#[derive(Debug, Clone)]
pub struct TunnelRequest {
    pub source_node_id: String,
    pub target_node_id: String,
    pub allowed_ips: Option<Vec<String>>,
}

} // verus!
