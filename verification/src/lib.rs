//! Control-plane library of the Solnet orchestrator: the node registry, the
//! priority task scheduler, the event bus that connects them, the Yggdrasil
//! synchronisation rules, WireGuard key material and the decisions taken on
//! requests from the dashboard.

pub mod event_bus;

pub use event_bus::EventBus;
pub mod wireguard;
pub mod orchestration;

pub use orchestration::node_manager::NodeManager;
pub mod mesh;
pub mod api;
