//! The Big Computer engine core: fixed-step clocks, intent queues, netcode
//! admission, guardrails, the real-world-wide message store, wire framing and
//! operations reports, each with its behaviour stated and proved.

pub mod clock;
pub mod consent_wire;
pub mod crdt_props;
pub mod ecs;
pub mod frame;
pub mod gameplay;
pub mod grid;
pub mod guardrails;
pub mod ids;
pub mod intent;
pub mod islands;
pub mod iuoc;
pub mod keyed;
pub mod counts;
pub mod ledger;
pub mod netcode;
pub mod ops;
pub mod persist;
pub mod planner;
pub mod psi;
pub mod ruleset;
pub mod rww;
pub mod sdk_types;
pub mod shard;
pub mod social;
pub mod text;
pub mod transport;
pub mod types;
