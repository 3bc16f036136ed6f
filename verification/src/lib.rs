//! A prime-field scalar type (`Felt`) over the 252-bit STARK field, together
//! with a segment-indexed dictionary manager that lets interpreter-side hint
//! code manipulate key/value stores addressed through a segmented memory model.

pub mod bignum;
pub mod felt;
pub mod dict;

pub use felt::{Felt, FeltOps, NewFelt, NewStr, ParseFeltError};
pub use dict::{
    DictManager, DictTracker, Dictionary, FeltMap, HintError, MaybeRelocatable,
    MemorySegmentManager, Relocatable, TrackerMap, VirtualMachine,
};
