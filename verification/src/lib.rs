//! The rules of the double-riichi server: credentials and sessions, the
//! OAuth authorization server, agent and MCP sessions, character packs,
//! configuration, rate limits and request helpers, with their contracts
//! proved by Verus.

use vstd::prelude::*;

pub mod admin_rooms;
pub mod agents;
pub mod auth;
pub mod characters;
pub mod codec;
pub mod config;
pub mod connections;
pub mod gateway;
pub mod grants;
pub mod guests;
pub mod human_socket;
pub mod crypto;
pub mod json;
pub mod keyed;
pub mod mcp_sessions;
pub mod mcp_views;
pub mod laws;
pub mod net;
pub mod oauth;
pub mod outbound;
pub mod origins;
pub mod pending;
pub mod protocol;
pub mod ranked;
pub mod rate;
pub mod replays;
pub mod responses;
pub mod server;
pub mod text;
pub mod textmap;
pub mod time;
pub mod web;
pub mod writer;

verus! {

} // verus!
