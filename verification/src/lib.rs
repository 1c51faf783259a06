//! Verified core of a peer-to-peer file sharing application.
//!
//! Peers publish what they share over a message broker and fetch files from each other's onion
//! services. This crate holds what that application computes and decides about files, peers,
//! commands and downloads, as plain data and verified functions. Reading directories, talking to
//! the broker, moving bytes over the network and handling the failures of these is left to the
//! program around it.

pub mod catalog;
pub mod commands;
pub mod directory_scan;
pub mod encoding;
pub mod file_map;
pub mod file_watcher;
pub mod mqtt_sync;
pub mod onion_client;
pub mod onion_service;
pub mod order;
pub mod reassembly;
pub mod sealed_url;
pub mod sync_loop;
pub mod text;
