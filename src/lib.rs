//! Authenticated dynamic DNS updates: the rules that decide who may update
//! which name, how the owning zone is found, and how an address record is
//! replaced.

pub mod access;
pub mod addr;
pub mod cli;
pub mod config;
pub mod coordinator;
pub mod creds;
pub mod error;
pub mod exclusion;
pub mod http;
pub mod lock;
pub mod model;
pub mod session;
pub mod text;
pub mod types;
pub mod update;
pub mod zone;
