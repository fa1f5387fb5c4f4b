//! The service-handler collaboration rule.
//!
//! The query executor forwards a federated sub-query to a caller-provided
//! handler and receives either solutions or an error. The store core only
//! fixes how the outcome is folded back in: a silent call that failed
//! becomes a single empty solution, a non-silent failure propagates.

use vstd::prelude::*;

use crate::Error;

verus! {

/// Folds a service handler's outcome into the surrounding query: solutions
/// pass through; an error becomes one empty solution when the call was
/// silent and propagates otherwise.
pub fn service_outcome<T>(silent: bool, outcome: Result<Vec<Vec<T>>, Error>) -> (r: Result<
    Vec<Vec<T>>,
    Error,
>)
    ensures
        outcome matches Ok(solutions) ==> (r matches Ok(v) && v == solutions),
        (outcome is Err && silent) ==> (r matches Ok(v) && v@.len() == 1 && v@[0]@.len() == 0),
        (outcome is Err && !silent) ==> r == Err::<Vec<Vec<T>>, Error>(outcome->Err_0),
{
    match outcome {
        Ok(solutions) => Ok(solutions),
        Err(e) => {
            if silent {
                let mut single: Vec<Vec<T>> = Vec::new();
                single.push(Vec::new());
                Ok(single)
            } else {
                Err(e)
            }
        },
    }
}

} // verus!
