//! Whether the time that an operation took is shown, and how.
use crate::text;
use crate::text::number;
use vstd::prelude::*;

verus! {

/// Whether times are shown.
#[derive(Debug, Clone, Copy)]
pub struct Timing {
    pub show: bool,
}

impl Timing {
    /// Times are not shown at first.
    pub fn new() -> (r: Self)
        ensures
            !r.show,
    {
        Timing { show: false }
    }
}

pub fn set_enabled(timing: &mut Timing, enabled: bool)
    ensures
        final(timing).show == enabled,
{
    timing.show = enabled;
}

pub fn enabled(timing: &Timing) -> (r: bool)
    ensures
        r == timing.show,
{
    timing.show
}

/// The milliseconds in brackets, after a blank.
pub open spec fn shown_time(milliseconds: nat) -> Seq<char> {
    " ["@ + text::decimal(milliseconds) + "ms]"@
}

/// What follows the report of an operation that took so many milliseconds.
pub fn elapsed_suffix(timing: &Timing, milliseconds: u128) -> (r: String)
    ensures
        r@ == if timing.show {
            shown_time(milliseconds as nat)
        } else {
            Seq::empty()
        },
{
    if enabled(timing) {
        let mut s = String::from_str(" [");
        s.append(number(milliseconds).as_str());
        s.append("ms]");
        s
    } else {
        String::new()
    }
}

/// A time is told in milliseconds.
pub proof fn times_are_in_milliseconds(milliseconds: nat)
    ensures
        shown_time(milliseconds) == " ["@ + text::decimal(milliseconds) + "ms]"@,
{
}

}
