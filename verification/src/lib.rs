//! The logic of an MQTT broker for versions 3.1, 3.1.1 and 5.0, with its
//! behaviour stated in contracts and proved.
//!
//! Nothing here does I/O, keeps time or waits. Functions take the state, what
//! happened and the time, and return what is to be done:
//!
//! - `types`, `codec`, `packet`, `framing`: control packets and their bytes.
//! - `topic`, `message`: topics, filters, and messages on their way.
//! - `broker`: sessions, routing, deliveries, retained messages and wills.
//! - `server`, `bridge`, `ws`, `tls`: what a connection does next.
//! - `acl`, `auth`, `ratelimit`: who may do what, and how often.
//! - `config`, `cli`, `json`: settings and where they come from.
//! - `storage`: what is stored, and how.
//! - `metrics`, `sysinfo`, `otel`, `admin`: statistics and how they are shown.
//!
//! What holds of several functions together is stated beside them, and in the
//! modules whose names end in `_laws`.

use vstd::prelude::*;

pub mod acl;
pub mod admin;
pub mod auth;
pub mod bridge;
pub mod bridge_laws;
pub mod broker;
pub mod cli;
pub mod codec;
pub mod config;
pub mod error;
pub mod framing;
pub mod json;
pub mod message;
pub mod metrics;
pub mod otel;
pub mod packet;
pub mod packet_laws;
pub mod ratelimit;
pub mod server;
pub mod server_laws;
pub mod storage;
pub mod sysinfo;
pub mod text;
pub mod tls;
pub mod topic;
pub mod topic_laws;
pub mod types;
pub mod ws;

verus! {

} // verus!
