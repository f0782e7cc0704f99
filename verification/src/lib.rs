//! A model of virtual lab environments.
//!
//! A scenario names networks and the systems attached to them. Building a
//! scenario validates every network and system; wiring resolves the
//! networks each system asks for and leases one address per interface on
//! an internal network, lowest free address first; rendering turns the
//! wired scenario into a Vagrantfile.
//!
//! - [`subnet`]: CIDR blocks, the private ranges, usable hosts.
//! - [`network`]: networks, their validation and their leases.
//! - [`leases`]: the addresses a system holds, by network.
//! - [`system`]: systems and the wiring of one system.
//! - [`scenario`]: the scenario, its checks, the wiring pass.
//! - [`vagrantfile`]: the rendered text, line by line.
//! - [`indentation_aware_string_builder`]: indented lines of text.
//! - [`text`]: dotted-decimal addresses and case folding.
//! - [`config`]: access to configuration values.
//! - [`error`]: what can fail, and how it is described.
//! - [`names`]: first positions in ordered lists.

pub mod config;
pub mod error;
pub mod indentation_aware_string_builder;
pub mod leases;
pub mod names;
pub mod network;
pub mod scenario;
pub mod subnet;
pub mod system;
pub mod text;
pub mod vagrantfile;
