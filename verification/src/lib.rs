//! The rules by which `redoubtful` builds a Linux sandbox for coding
//! agents: what it mounts, which ports it forwards, which variables it
//! sets, what its proxy lets out, and the command lines that bring it
//! about.
//!
//! Nothing here touches the host. What has to be known of it comes in as a
//! [`host::Host`] snapshot or as the answer to a question that a function
//! asked, and what has to be done goes out as values.
//!
//! - [`config`]: profiles, from what the user declares to what a sandbox is
//!   built from.
//! - [`sandbox`]: command lines, the proxy's decisions and the credentials
//!   that it injects. [`sandbox::isolation`] states what a sandbox lets in.
//! - [`check`], [`styled`] and [`deps`]: prerequisites, and the report on
//!   them.
//! - [`mounts`], [`forward`], [`env`] and [`bwrap`]: sandboxes that the
//!   command line alone describes.
//! - [`text`], [`paths`], [`values`], [`name_map`] and [`errors`]: the
//!   vocabulary that the others share.

pub mod argv;
pub mod bwrap;
pub mod check;
pub mod cmd;
pub mod config;
pub mod deps;
pub mod dirs;
pub mod env;
pub mod errors;
pub mod forward;
pub mod host;
pub mod hostname;
pub mod mounts;
pub mod name_map;
pub mod paths;
pub mod sandbox;
pub mod styled;
pub mod text;
pub mod values;
