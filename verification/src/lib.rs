//! Routing of LLM requests.
//!
//! A router is described by a TOML text ([`config`]): backends, pools of backends, and
//! routes from model names to backends, with aliases. It takes requests of two
//! protocols in ([`protocol`], [`receive`]), shows them to an interceptor
//! ([`middleware`]), and sends them on ([`forward`]) to a backend of the route, and to
//! the next where one fails ([`server`], [`failover`]); what that comes to from beginning
//! to end is said in [`run`]. Backends that fail again and again are given a cooldown
//! ([`health`]).
//!
//! The library neither reads nor sends anything: it says what to send, and is told what
//! came back. What each function does is stated over the contents of its arguments;
//! what holds of several functions together is stated by the proof functions whose
//! names begin with `law_`.

pub mod balance;
pub mod clock;
pub mod config;
pub mod duration;
pub mod failover;
pub mod flatten;
pub mod forward;
pub mod health;
pub mod http;
pub mod json;
pub mod laws;
pub mod middleware;
pub mod names;
pub mod protocol;
pub mod receive;
pub mod routes;
pub mod run;
pub mod server;
pub mod text;
pub mod toml_doc;

pub use config::Config;
pub use middleware::{InterceptAction, Middleware, RequestContext};
