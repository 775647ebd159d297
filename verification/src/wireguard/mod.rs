pub mod encoding;
pub mod keys;
pub mod types;

pub use keys::generate_keypair;
pub use types::{TunnelRequest, WireGuardInterfaceConfig, WireGuardKeyPair, WireGuardPeerConfig};
