//! Settings read from environment variables: the checks and messages applied
//! to the value each variable holds.

use vstd::prelude::*;
use crate::text::{append_str, chars_of, parse_u16, parse_unsigned};

verus! {

/// The message for a variable that is not set (or holds no valid Unicode).
pub open spec fn unset_message(var_name: Seq<char>) -> Seq<char> {
    var_name + " environment variable must be set"@
}

/// The message for a variable whose value is no `u16`.
pub open spec fn invalid_u16_message(var_name: Seq<char>) -> Seq<char> {
    var_name + " environment variable must be set and a valid u16"@
}

/// The value of variable `var_name`, given what the environment holds for it.
pub fn env_str(var_name: &str, value: Option<String>) -> (res: Result<String, String>)
    ensures
        match value {
            Some(v) => (res matches Ok(r) && r@ == v@),
            None => (res matches Err(m) && m@ == unset_message(var_name@)),
        },
{
    match value {
        Some(v) => Ok(v),
        None => {
            let mut m = var_name.to_owned();
            append_str(&mut m, " environment variable must be set");
            Err(m)
        },
    }
}

/// The value of variable `var_name` read as a decimal `u16`, given what the
/// environment holds for it.
pub fn env_u16(var_name: &str, value: Option<&str>) -> (res: Result<u16, String>)
    ensures
        match value {
            None => (res matches Err(m) && m@ == unset_message(var_name@)),
            Some(v) => match parse_unsigned(v@, 10, u16::MAX as nat) {
                Ok(n) => (res matches Ok(r) && r == n),
                Err(_) => (res matches Err(m) && m@ == invalid_u16_message(var_name@)),
            },
        },
{
    match value {
        None => {
            let mut m = var_name.to_owned();
            append_str(&mut m, " environment variable must be set");
            Err(m)
        },
        Some(v) => {
            let cs = chars_of(v);
            match parse_u16(cs.as_slice()) {
                Ok(n) => Ok(n),
                Err(_) => {
                    let mut m = var_name.to_owned();
                    append_str(&mut m, " environment variable must be set and a valid u16");
                    Err(m)
                },
            }
        },
    }
}

} // verus!
