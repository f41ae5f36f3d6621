use vstd::prelude::*;

use crate::text::{chars_of, parse_unsigned, spec_parse_unsigned};

verus! {

/// Reads a delay given in milliseconds; the result is in microseconds.
pub fn parse_duration(src: &str) -> (r: Result<u64, String>)
    ensures
        match spec_parse_unsigned(src@) {
            Some(ms) => if ms * 1000 <= u64::MAX {
                r == Ok::<u64, String>((ms * 1000) as u64)
            } else {
                r is Err
            },
            None => r is Err,
        },
{
    let chars = chars_of(src);
    assert(chars@.subrange(0, chars@.len() as int) == src@);
    match parse_unsigned(&chars, 0, chars.len(), u64::MAX / 1000) {
        Some(millis) => Ok(millis * 1000),
        None => {
            let mut msg = String::from_str("Invalid number of milliseconds '");
            msg.append(src);
            msg.append("'");
            Err(msg)
        },
    }
}

} // verus!
