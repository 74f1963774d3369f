//! A Model Context Protocol (MCP) bridge for the ProxyBase proxy marketplace.
//!
//! The library speaks line-delimited JSON-RPC 2.0 on one side and plans REST
//! calls against the ProxyBase backend on the other.  Everything that decides
//! or computes lives here, verified; the binary around it only moves bytes:
//! it reads lines, performs the HTTP requests the library plans, and writes
//! the lines the library produced.
//!
//! - [`json`] holds the untyped JSON tree the bridge passes through.
//! - [`parse`] and [`ser`] are the JSON codec: the grammar and the printers
//!   as spec functions, with executable mirrors proved against them.
//! - [`envelope`] is the JSON-RPC request/response envelope.
//! - [`registry`] is the static catalog of the seven tools.
//! - [`dispatch`] routes a request by method name.
//! - [`tools`] validates arguments and plans backend calls, one state step
//!   per HTTP round trip.
//! - [`backend`] builds the REST requests and folds their outcomes.
//! - [`laws`] proves the serialize/parse round trip.

pub mod backend;
pub mod dispatch;
pub mod envelope;
pub mod json;
pub mod laws;
pub mod parse;
pub mod registry;
pub mod ser;
pub mod tools;
