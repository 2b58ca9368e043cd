//! `sift` — will this model run on your machine, and how fast? Answered before you download it.
//!
//! This crate is what `sift` knows and decides: it reads a model's header out of its first
//! bytes, weighs it against a machine, and says which quantization to download, how fast it
//! will be and which engine should run it. It does no I/O. Whoever uses it reads the files,
//! sends the requests and takes the times, and hands in what came back; what is asked for next
//! is decided here.
//!
//! - [`model`] reads GGUF and safetensors headers, locally or a range request at a time, and
//!   works out what a token reads.
//! - [`hub`] reads a repo's listing and puts split models together; [`source`] resolves what a
//!   user named; [`cache`] keeps headers that were fetched before.
//! - [`platform`] reads what an OS says of itself; [`io`] and [`doctor`] lay out what is
//!   measured and judge the figures.
//! - [`engine`] knows the engines and routes a model to one; [`fit`] evaluates and recommends
//!   quantizations; [`ls`] lists what is there already.
//! - [`bench`] and [`calibrate`] hold estimates against measured engines.
//! - [`report`] says what is told of all this, for people and for programs.
//! - [`text`], [`order`], [`ratio`] and [`json`] are what the rest is built from.
//!
//! Everything here is proved to do what its contract says. What is taken on trust instead is
//! what `serde_json` and a few functions of the standard library do; each such function has a
//! doc comment that names it.

use vstd::prelude::*;

pub mod bench;
pub mod cache;
pub mod calibrate;
pub mod doctor;
pub mod engine;
pub mod fit;
pub mod hub;
pub mod io;
pub mod json;
pub mod ls;
pub mod model;
pub mod order;
pub mod platform;
pub mod ratio;
pub mod report;
pub mod source;
pub mod text;

verus! {

/// Bytes in a binary gigabyte, used throughout for human-facing sizes.
pub const GIB: u64 = 0x4000_0000;

/// Bytes in a binary megabyte.
pub const MIB: u64 = 0x10_0000;

/// A byte count in GiB, for display.
pub fn gib(bytes: u64) -> (r: ratio::Ratio)
    ensures
        r.numer == bytes,
        r.denom == GIB,
{
    ratio::Ratio { numer: bytes as u128, denom: GIB as u128 }
}

/// A byte count in MiB, for display.
pub fn mib(bytes: u64) -> (r: ratio::Ratio)
    ensures
        r.numer == bytes,
        r.denom == MIB,
{
    ratio::Ratio { numer: bytes as u128, denom: MIB as u128 }
}

} // verus!
