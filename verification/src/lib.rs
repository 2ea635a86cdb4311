//! A reverse-tunnelling relay, as verified state and decisions.
//!
//! An agent behind a firewall opens a control channel to a public relay and
//! advertises a local service. The relay gives the agent a subdomain,
//! takes public requests for that subdomain, sends each through the control
//! channel, and hands the agent's response back to the caller.
//!
//! This library holds what both sides decide and compute. It never waits:
//! whoever runs the sockets, the timers and the locks calls in here with
//! what has happened and the time at which it happened, and does what comes
//! back.
//!
//! On the relay: [`registration`] reads an advertisement and writes the
//! acknowledgement, [`registry`] gives out subdomains, [`tunnel`] holds the
//! requests that wait for a response, [`circuit_breaker`] gates the frames
//! of a tunnel, [`ip_filter`] decides which callers may pass, and [`proxy`]
//! takes one public request from its arrival to its answer.
//!
//! On the agent: [`agent`] decides what to do with each message of the
//! relay, and [`forwarder`] writes the request for the local service and
//! reads its response.
//!
//! Both sides share [`frame`], the records that travel through the tunnel,
//! and [`json`], the documents that carry them.

pub mod acme;
pub mod agent;
pub mod circuit_breaker;
pub mod config;
pub mod crypto;
pub mod error;
pub mod forwarder;
pub mod frame;
pub mod headers;
pub mod ids;
pub mod inspector;
pub mod ip_filter;
pub mod ipv6;
pub mod json;
pub mod log_export;
pub mod metrics;
pub mod numerals;
pub mod policy;
pub mod protocol;
pub mod proxy;
pub mod registration;
pub mod registry;
pub mod router;
pub mod scan;
pub mod text;
pub mod throttle;
pub mod tls;
pub mod tunnel;
