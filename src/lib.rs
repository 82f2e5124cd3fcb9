//! Records of hyperparameter-optimization studies and their trials, and their
//! encoding as self-describing structured values.
use vstd::prelude::*;

pub mod attrs;
pub mod codec;
pub mod float;
pub mod nullable_f64_vec;
pub mod schema;
pub mod wire;

pub use codec::{decode, encode, DecodeError};
pub use float::Float;
pub use schema::{
    Attr, Direction, EvalRecord, EvalState, ParamDef, ParamRange, Record, Scale, Span, SpanDef,
    StudyId, StudyRecord, TrialId, ValueDef, ValueRange,
};
pub use wire::{Field, Wire};

verus! {

} // verus!
