//! The logic of a zero-configuration overlay network whose members share one
//! passphrase.
use vstd::prelude::*;

pub mod channel;
pub mod claim;
pub mod cli;
pub mod clock;
pub mod codec;
pub mod config;
pub mod constants;
pub mod daemon;
pub mod derive;
pub mod device;
pub mod dht;
pub mod duties;
pub mod engine;
pub mod error;
pub mod frame;
pub mod json;
pub mod locate;
pub mod manager;
pub mod message;
pub mod net;
pub mod node;
pub mod node_laws;
pub mod node_state;
pub mod noise;
pub mod overlay;
pub mod panels;
pub mod peer;
pub mod ports;
pub mod punch;
pub mod reach;
pub mod relay;
pub mod routing;
pub mod rows;
pub mod session;
pub mod snapshot;
pub mod state;
pub mod stream_frame;
pub mod stun;
pub mod table;
pub mod text;
pub mod tracker;
pub mod transport;
pub mod tui;
pub mod tui_text;
pub mod tun;
pub mod types;
pub mod words;

verus! {

} // verus!
