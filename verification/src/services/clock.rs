//! The date of a run.
use vstd::prelude::*;
use crate::calendar::valid_day;

verus! {

/// A source of the current date, as a day number.
pub trait Clock {
    fn today(&self) -> (r: i32)
        ensures
            valid_day(r as int),
    ;
}

/// The machine's local date.
pub struct SystemClock;

/// `chrono::Local::now().date_naive()` as a day number.  Nothing is claimed
/// of which day it is, only that chrono can represent it.
#[verifier::external_body]
fn local_today() -> (r: i32)
    ensures
        valid_day(r as int),
{
    chrono::Datelike::num_days_from_ce(&chrono::Local::now().date_naive())
}

impl Clock for SystemClock {
    fn today(&self) -> (r: i32) {
        local_today()
    }
}

} // verus!
