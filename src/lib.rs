//! Bridges a publish/subscribe relay protocol to a push-notification
//! registration service: validated domain values, a transactional
//! registration store, a schema-migration runner and the decision logic of
//! the relay workers that keep one subscription session per relay.

pub mod domain;
pub mod common;
pub mod storage;
pub mod migrations;
pub mod schema;
pub mod relay;
pub mod events;
pub mod service;
