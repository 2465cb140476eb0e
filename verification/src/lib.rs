//! PrismDMX: the verified core of a DMX lighting console.
use vstd::prelude::*;

pub mod body;
pub mod clock;
pub mod command;
pub mod cue;
pub mod encode;
pub mod fixture;
pub mod frame;
pub mod master;
pub mod ids;
pub mod merge;
pub mod plan;
pub mod programmer;
pub mod query;
pub mod playback;
pub mod player;
pub mod slots;
pub mod surface;
pub mod sequence;
pub mod session;
pub mod sorted;
pub mod text;

verus! {
} // verus!
