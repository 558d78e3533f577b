//! The decisions of a boundary entry point: which status it reports and
//! what it writes to its result slot, given how the marshalling of its
//! arguments and the call itself went.

use vstd::prelude::*;
use crate::error::Error;
use crate::marshal::{decode, decode_all, data, encode, raw_data, values_of_all, Datum, Raw, Value};

verus! {

/// The result slot was filled.
pub const STATUS_OK: i32 = 0;

/// An argument, or the result, could not be marshalled.
pub const STATUS_MARSHAL_ERROR: i32 = 1;

/// The call itself failed: it faulted instead of returning.
pub const STATUS_CALL_ERROR: i32 = 2;

/// How the call of the exposed function ended.
pub enum CallOutcome {
    Returned(Value),
    Faulted,
}

/// Builds the owned arguments of a call from the raw forms that the caller
/// lends, leaving those untouched; the first argument that fails decides.
pub fn marshal_arguments(args: &Vec<Raw>) -> (r: Result<Vec<Value>, Error>)
    requires
        forall|k: int| 0 <= k < args@.len() ==> (#[trigger] args@[k]).wf(),
    ensures
        match r {
            Ok(vs) => decode_all(raw_data(args@), false) == Ok::<Seq<Datum>, Error>(data(vs@)),
            Err(e) => decode_all(raw_data(args@), false) == Err::<Seq<Datum>, Error>(e),
        },
{
    values_of_all(args, false)
}

/// The status of an entry point whose arguments could not be marshalled:
/// the function is not called and the result slot is not touched.
pub fn argument_error_status(e: Error) -> (status: i32)
    ensures
        status == STATUS_MARSHAL_ERROR,
{
    STATUS_MARSHAL_ERROR
}

/// Completes a call: a fault reports the call error and leaves the result
/// slot alone; a returned value is moved into the slot as a pointer to its
/// raw form, or reports a marshalling error when it has none.
pub fn finish_call(outcome: CallOutcome, out: &mut Option<Box<Raw>>) -> (status: i32)
    ensures
        match outcome {
            CallOutcome::Faulted => status == STATUS_CALL_ERROR && *final(out) == *old(out),
            CallOutcome::Returned(v) => match encode(v@) {
                Ok(raw) => status == STATUS_OK && (*final(out) matches Some(b) && (*b).wf() && (*b)@
                    == raw),
                Err(_) => status == STATUS_MARSHAL_ERROR && *final(out) == *old(out),
            },
        },
{
    match outcome {
        CallOutcome::Faulted => STATUS_CALL_ERROR,
        CallOutcome::Returned(v) => match v.into_ptr() {
            Ok(b) => {
                *out = Some(b);
                STATUS_OK
            },
            Err(_) => STATUS_MARSHAL_ERROR,
        },
    }
}

/// The disposal entry point: reclaims a returned result, reporting non-zero
/// where reclaiming it fails.
pub fn dispose(output: Box<Raw>) -> (status: i32)
    requires
        (*output).wf(),
    ensures
        status == 0 <==> decode((*output)@, true) is Ok,
        status == 0 || status == 1,
{
    match Value::from_ptr(output) {
        Ok(_) => 0,
        Err(_) => 1,
    }
}

} // verus!
