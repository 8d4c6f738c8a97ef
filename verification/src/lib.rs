//! Verified core of the krometrail temporal evidence runtime.
use vstd::prelude::*;

pub mod bundle;
pub mod bundle_flow;
pub mod cache;
pub mod decode;
pub mod diagnostics;
pub mod doctor;
pub mod epoch;
pub mod errors;
pub mod focus;
pub mod flight_flow;
pub mod flights;
pub mod framing;
pub mod generation;
pub mod handles;
pub mod ids;
pub mod markers;
pub mod normalization;
pub mod order;
pub mod outcomes;
pub mod perf;
pub mod progressive;
pub mod scheduler;
pub mod spans;
pub mod status;
pub mod text;
pub mod work;

verus! {
} // verus!
