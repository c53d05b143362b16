//! The two ambient values the session runtime needs from outside: fresh
//! identifiers and the wall clock.

use vstd::prelude::*;

verus! {

/// Relies on uuid::Uuid::new_v4 to draw a fresh random identifier, written
/// in the hyphenated form, which is always 36 characters.  Nothing more is
/// promised: two calls may, with or without luck, collide.
#[verifier::external_body]
pub fn fresh_id() -> (r: String)
    ensures
        r@.len() == 36,
{
    uuid::Uuid::new_v4().to_string()
}

/// Relies on std::time::SystemTime::now for the wall clock.  Nothing is
/// promised of the result: the clock may jump either way between calls.
#[verifier::external_body]
fn wall_clock_ms() -> u64 {
    std::time::SystemTime::now()
        .duration_since(std::time::UNIX_EPOCH)
        .map(|d| d.as_millis() as u64)
        .unwrap_or(0)
}

/// The wall clock in Unix milliseconds, held to the range the wire format
/// can carry.
pub fn now_ms() -> (r: u64)
    ensures
        r <= i64::MAX as u64,
{
    let t = wall_clock_ms();
    if t > i64::MAX as u64 {
        i64::MAX as u64
    } else {
        t
    }
}

} // verus!
