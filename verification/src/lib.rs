//! The decision logic of an ownership-backed Ubisoft Connect client.
//!
//! Every function here works on plain values: what was read from the network, the
//! disk or the terminal comes in as an argument, and what is to be sent, written
//! or run goes out as a result. The contracts are stated over mathematical models
//! of texts, paths, documents and messages; the laws that span several functions
//! are the public proof functions whose names start with `law_`.
//!
//! - `text`, `codec`, `path`, `retry`: the ground that the rest stands on.
//! - `config`, `auth`, `session`: the stored session, its requests and replies.
//! - `browser_login`, `webauth_capture`: how a ticket is captured.
//! - `demux`, `library`, `product`: what an account owns.
//! - `install`: what an installation fetches, and where it goes.
//! - `account`, `launch`, `scan`, `proton`: how a game is launched.
//! - `orbit`: the client that older games talk to.
pub mod account;
pub mod auth;
pub mod browser_login;
pub mod codec;
pub mod config;
pub mod demux;
pub mod install;
pub mod launch;
pub mod library;
pub mod orbit;
pub mod path;
pub mod product;
pub mod proton;
pub mod retry;
pub mod scan;
pub mod session;
pub mod text;
pub mod webauth_capture;
