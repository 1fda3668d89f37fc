//! netevd: the decisions of a network event daemon, verified.
//!
//! - `state`: links, default routes of dedicated tables and policy rules;
//!   the two link maps stay inverse to each other.
//! - `routing`: reconciling an interface's addresses into a route and
//!   `from`/`to` rules in table `200 + ifindex`, with the laws it keeps.
//! - `lease`, `lease_text`: reading and writing DHCP client lease files.
//! - `networkd`: per-link and manager state files.
//! - `filters`, `dispatch`, `scripts`: which hooks run for an event, with
//!   what environment, and what goes to the name services.
//! - `events`: the bounded, coalescing event queue.
//! - `validation`, `ip`, `ipv6`, `text`: checks and parsing of untrusted
//!   text.
//! - `config`, `paths`, `timing`, `models`, `cloud`: settings and records.

pub mod cloud;
pub mod config;
pub mod dispatch;
pub mod events;
pub mod filters;
pub mod ip;
pub mod ipv6;
pub mod lease;
pub mod lease_text;
pub mod models;
pub mod networkd;
pub mod paths;
pub mod routing;
pub mod scripts;
pub mod state;
pub mod timing;
pub mod validation;
pub mod text;
