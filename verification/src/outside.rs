//! What the engine takes from outside: the time and fresh tokens.

use vstd::prelude::*;
use crate::model::is_uuid_text;

verus! {

/// Reads the clock with `chrono::Utc::now` and returns the instant as
/// `DateTime::timestamp` gives it: whole seconds since the Unix epoch.
/// Nothing is claimed of the number: two calls may differ in either direction.
/// `Utc::now` panics where the system clock stands before 1970.
#[verifier::external_body]
pub(crate) fn current_timestamp() -> i64 {
    chrono::Utc::now().timestamp()
}

/// Draws a random identifier with `uuid::Uuid::new_v4` and returns its
/// text as the identifier's `Display` writes it. The contract claims the
/// form that every such text has: 36 characters, lower-case hexadecimal
/// digits with hyphens at the places 8, 13, 18 and 23. Nothing is claimed
/// of which digits they are, not even that two calls differ: the ids that
/// the engine makes of tokens are distinct whatever the tokens are.
/// `new_v4` panics where the system gives no random bytes.
#[verifier::external_body]
pub(crate) fn fresh_token() -> (token: String)
    ensures
        is_uuid_text(token@),
{
    uuid::Uuid::new_v4().to_string()
}

} // verus!
