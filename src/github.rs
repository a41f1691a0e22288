//! Decisions on the answers of the GitHub device authorization flow. The
//! requests themselves, and reading the JSON bodies, happen outside.
use vstd::prelude::*;
use crate::text::{chars_of, equals_str};

verus! {

/// What the device-code request hands back.
#[derive(Debug, Clone)]
pub struct DeviceCodeData {
    pub device_code: String,
    pub user_code: String,
    pub verification_uri: String,
    pub expires_in: u64,
    pub interval: u64,
}

/// The message of an error answer: its description when it has one, else
/// the error code itself.
pub fn error_message(error: String, description: Option<String>) -> (r: String)
    ensures
        r@ == match description {
            Some(d) => d@,
            None => error@,
        },
{
    match description {
        Some(d) => d,
        None => error,
    }
}

/// Whether an error code only asks the client to poll again.
pub open spec fn is_pending(error: Seq<char>) -> bool {
    error == "authorization_pending"@ || error == "slow_down"@
}

/// The outcome of one poll for the access token, from the fields of the
/// answer: the token once it is granted; nothing yet while authorization is
/// pending, the client is asked to slow down, or the answer names no error;
/// else the error's message.
pub fn poll_outcome(
    access_token: Option<String>,
    error: Option<String>,
    description: Option<String>,
) -> (r: Result<Option<String>, String>)
    ensures
        access_token is Some ==> r == Ok::<Option<String>, String>(access_token),
        access_token is None && error is None ==> r == Ok::<Option<String>, String>(None),
        access_token is None && error is Some && is_pending(error->0@) ==> r == Ok::<
            Option<String>,
            String,
        >(None),
        access_token is None && error is Some && !is_pending(error->0@) ==> (r matches Err(m)
            && m@ == match description {
            Some(d) => d@,
            None => error->0@,
        }),
{
    if access_token.is_some() {
        return Ok(access_token);
    }
    match error {
        None => Ok(None),
        Some(e) => {
            let v = chars_of(e.as_str());
            if equals_str(&v, "authorization_pending") || equals_str(&v, "slow_down") {
                Ok(None)
            } else {
                Err(error_message(e, description))
            }
        },
    }
}

} // verus!
