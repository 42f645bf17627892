//! The replication protocol: messages, the node's state machine and its laws.

pub mod messages;
pub mod actions;
pub mod model;
pub mod state;
pub mod raftservice;
pub mod transformers;
pub mod application;
pub mod laws;
pub mod clientman;
pub mod client;
pub mod cluster;
pub mod known;
