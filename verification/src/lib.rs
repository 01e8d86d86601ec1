//! Audiophore: from audio analysis to light.
//!
//! Audio values arrive as OSC datagrams ([`ingress`]), are kept as the latest
//! audio frame ([`frame`]), mapped to the colors of zones ([`mapping`]) and
//! published on a bus ([`bus`]). Output adapters take the latest frame at their
//! own rate ([`run_loop`]); the E1.31 adapter ([`adapter`]) splits the pixels
//! across universes ([`partition`]) and sends them as packets ([`packet`]).
//!
//! Every function is proved to do what its contract says. Sockets, clocks and
//! floating-point text live in the program around the library.

pub mod adapter;
pub mod adapter_core;
pub mod binary32;
pub mod buffer;
pub mod bus;
pub mod cid;
pub mod engine;
pub mod frame;
pub mod ingress;
pub mod mapping;
pub mod monitor;
pub mod osc;
pub mod packet;
pub mod partition;
pub mod rounding;
pub mod run_loop;
pub mod text;
pub mod types;
pub mod zone_map;
