pub mod announcers;
pub mod channel;
pub mod evm;
pub mod evn;
pub mod failover;
pub mod latency;
pub mod lru;
pub mod parlia;
pub mod peer_map;
pub mod primitives;
pub mod proxyed;
pub mod range;
pub mod registry;
pub mod rex;
pub mod votes;
