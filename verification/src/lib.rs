//! An in-memory key-value store speaking the RESP wire protocol, with
//! leader/follower replication bookkeeping. The wire codec, the keyspace,
//! the command set and the replication arithmetic are all verified; sockets,
//! clocks and the process entry point live outside this crate.
pub mod cli;
pub mod commands;
pub mod config;
pub mod connection;
pub mod datatypes;
pub mod follower;
pub mod matcher;
pub mod numbers;
pub mod rdb;
pub mod replication;
pub mod replication_manager;
pub mod resp;
pub mod store;
