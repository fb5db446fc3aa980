//! A Docker Registry proxy's decisions, verified: which upstream registry a
//! request is for, how token requests and `WWW-Authenticate` challenges are
//! rewritten so that clients authenticate through the proxy, which headers
//! cross the proxy, how the configuration is checked, and what the command
//! line and startup messages say. The network and file work lives in the
//! program around this library.
pub mod auth;
pub mod cli;
pub mod config;
pub mod error;
pub mod proxy;
pub mod registry;
pub mod setup;
pub mod startup;
pub mod text;
pub mod tls;
pub mod urls;
