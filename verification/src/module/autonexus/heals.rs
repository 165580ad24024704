//! Heals that the server announces in an object notification.

use vstd::prelude::*;
use crate::text::{parse_i64, parse_integer, str_eq};

verus! {

pub struct Heals {}

/// The amount that a heal notification gives: its key must be the plus
/// symbol, and its amount an integer.
pub open spec fn heal_amount_of(key: Seq<char>, amount: Seq<char>) -> Option<i64> {
    if key != "s.plus_symbol"@ {
        None
    } else {
        match parse_integer(amount, 10, i64::MIN as int, i64::MAX as int) {
            Some(v) => Some(v as i64),
            None => None,
        }
    }
}

impl Heals {
    pub fn new() -> Self {
        Heals {}
    }

    /// The amount healed, from the two fields of the notification's message.
    pub fn heal_amount(key: &str, amount: &str) -> (r: Option<i64>)
        ensures
            r == heal_amount_of(key@, amount@),
    {
        if !str_eq(key, "s.plus_symbol") {
            return None;
        }
        parse_i64(amount)
    }
}

} // verus!
