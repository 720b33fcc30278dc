use vstd::prelude::*;

verus! {

/// `chrono::Local::now` and `chrono::DateTime::format`: the local date and
/// time of the call, written as day-month-year hour:minute. Nothing is
/// claimed of the text, which depends on the clock and the time zone of the
/// machine.
#[verifier::external_body]
pub(crate) fn local_time_text() -> (s: String) {
    chrono::Local::now().format("%d-%m-%Y %H:%M").to_string()
}

} // verus!
