//! The internal token by which the services of one launch know each other.

use crate::text::{lower_hex, push_lower_hex};
use vstd::prelude::*;
use vstd::string::*;

verus! {

/// The token made of a reading of the clock and of a number that differs
/// from process to process: both in lowercase hexadecimal behind a fixed
/// prefix.
pub open spec fn token_of(now_nanos: u128, entropy: u64) -> Seq<char> {
    "goyais-internal-"@ + lower_hex(now_nanos as nat) + "-"@ + lower_hex(entropy as nat)
}

/// Forms the internal token of a launch.  The token is no secret: it is
/// only as hard to guess as the two numbers.
pub fn internal_token(now_nanos: u128, entropy: u64) -> (token: String)
    ensures
        token@ == token_of(now_nanos, entropy),
{
    let mut token = String::from_str("goyais-internal-");
    push_lower_hex(&mut token, now_nanos);
    token.append("-");
    push_lower_hex(&mut token, entropy as u128);
    token
}

} // verus!
