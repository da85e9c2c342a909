//! A verified core for a proxy that serves the Responses API on top of a
//! chat-completions upstream.

pub mod cli;
pub mod codec;
pub mod config;
pub mod conversation;
pub mod delta;
pub mod error;
pub mod fold;
pub mod headers;
pub mod hosted;
pub mod ids;
pub mod json;
pub mod metrics;
pub mod normalize;
pub mod number;
pub mod order;
pub mod probe;
pub mod protocol;
pub mod reasoning;
pub mod response;
pub mod restore;
pub mod rounds;
pub mod search;
pub mod server;
pub mod session;
pub mod sse;
pub mod store;
pub mod stream;
pub mod table;
pub mod text;
pub mod tools;
pub mod toolset;
pub mod translate;
pub mod turn;
pub mod upstream;
pub mod usage;
