//! What stands between a worker and an activity: its input and its output as bytes.
use crate::activity::error::{fatal_error, Error};
use vstd::prelude::*;
use vstd::string::*;

verus! {

/// What an activity is handed, once its input has been parsed: an input that does not
/// parse is a failure that no retry can mend.
pub fn decoded_input<T>(parsed: Result<T, String>) -> (input: Result<T, Error>)
    ensures
        match parsed {
            Ok(v) => input == Ok::<T, Error>(v),
            Err(reason) => input matches Err(e) && e@ == fatal_error(
                "activity input deserialize: "@ + reason@,
            ),
        },
{
    match parsed {
        Ok(v) => Ok(v),
        Err(reason) => {
            let mut message = String::from_str("activity input deserialize: ");
            message.append(reason.as_str());
            Err(Error::fatal(message.as_str()))
        },
    }
}

/// What an activity gives, once its output has been written down: an output that
/// cannot be is a failure that no retry can mend.
pub fn encoded_output(written: Result<Vec<u8>, String>) -> (output: Result<Vec<u8>, Error>)
    ensures
        match written {
            Ok(bytes) => output == Ok::<Vec<u8>, Error>(bytes),
            Err(reason) => output matches Err(e) && e@ == fatal_error(
                "activity output serialize: "@ + reason@,
            ),
        },
{
    match written {
        Ok(bytes) => Ok(bytes),
        Err(reason) => {
            let mut message = String::from_str("activity output serialize: ");
            message.append(reason.as_str());
            Err(Error::fatal(message.as_str()))
        },
    }
}

} // verus!
