//! A durable store of to-do records with six operations: create, read, list
//! by pages, update, delete and count.
//!
//! - [`types`]: the records, requests and replies.
//! - [`text`]: trimming, and which texts a record may carry.
//! - [`codec`]: the bytes that are kept for a record.
//! - [`storage`]: the stable maps, the store built on them, and the
//!   identifier counter.
//! - [`listing`]: the order of the listing and the pages cut from it.
//! - [`service`]: the six operations, each stated as a function of the
//!   store's value.
//! - [`laws`], [`consistency`], [`history`]: what follows for single
//!   operations, for the state of the store, and for runs of requests.
//! - [`network`]: where a client finds the service.
//!
//! The library keeps no clock: the operations that stamp a record take the
//! time as an argument.

pub mod codec;
pub mod consistency;
pub mod history;
pub mod laws;
pub mod listing;
pub mod network;
pub mod service;
pub mod storage;
pub mod text;
pub mod types;
