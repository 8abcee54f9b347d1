//! An interactive memory scanner core: locates and narrows down the offsets at
//! which a region of a foreign process's memory holds a given numeric value,
//! under one or more width/signedness interpretations.
//!
//! This crate holds the verified logic: numeric decoding and parsing, the
//! partitioned typed scan with its seam arithmetic, successive refinement of
//! match sets, command parsing, and the bookkeeping of the worker pool and the
//! session. Everything that touches the foreign address space itself (process
//! handles, region enumeration, cross-process reads and writes) lives with the
//! caller, which hands byte snapshots in and takes write plans out.

#![allow(nonstandard_style)]

pub mod args;
pub mod config;
pub mod laws;
pub mod numeric;
pub mod pool;
pub mod region;
pub mod session;
pub mod scan;
pub mod target;
