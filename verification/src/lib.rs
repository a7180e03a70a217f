//! Order-lifecycle library for a merchant-order payment gateway.
//!
//! The library builds the outbound requests of four operations — status
//! query, create, cancel, search — from a loaded gateway configuration and,
//! for creation, a pending-order descriptor. Each operation is expressed as a
//! [`plan::Plan`]: which artifact to remove beforehand, which request to send,
//! and which artifacts to land, so that the surrounding program only performs
//! I/O that the library has already decided.

pub mod config;
pub mod decimal;
pub mod decode;
pub mod dispatch;
pub mod digits;
pub mod errors;
pub mod payload;
pub mod plan;
pub mod timestamp;
pub mod urls;

use vstd::prelude::*;

verus! {

} // verus!
