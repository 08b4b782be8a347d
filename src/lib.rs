//! Subscription delivery engine of an MQTT broker: message model, QoS
//! handling, shared-subscription round robin, keep-alive sweeping, the topic
//! log with committed group offsets, and the small stores around them.

pub mod config;
pub mod model;
pub mod table;
pub mod topic;
pub mod subscribe;
pub mod share_leader;
pub mod storage;
pub mod keep_alive;
pub mod pkid;
pub mod ack;
pub mod exclusive;
pub mod lifecycle;
pub mod retain;
pub mod auth;
pub mod user_storage;
