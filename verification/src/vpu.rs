//! The validator processing unit: what decides whether a stored record is
//! valid.
use crate::encoding::{decode, parse_record};
use crate::tx::signature_valid;
use vstd::prelude::*;

verus! {

/// The validator processing unit.
pub struct Validator;

impl Validator {
    /// Starts the unit. There is nothing to prepare: a unit holds no state.
    pub fn start() {
    }

    /// Whether `tx` is the stored form of a record whose signature is valid.
    pub fn validate(tx: String) -> (valid: bool)
        ensures
            valid == match parse_record(tx@) {
                Some(v) => signature_valid(v),
                None => false,
            },
    {
        match decode(tx.as_str()) {
            Some(record) => record.validate().is_ok(),
            None => false,
        }
    }
}

} // verus!
