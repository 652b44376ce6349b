//! Elapsed-time text for the progress display.
use vstd::prelude::*;
use std::time::Duration;
use crate::text::{decimal, push_decimal, push_str, string_of};
use crate::clock::{secs_of, whole_seconds};

verus! {

/// A duration of `s` seconds as text: "1h 2m 3s", "2m 3s" or "3s", leaving out the
/// leading units that are zero.
pub open spec fn duration_text(s: nat) -> Seq<char> {
    let h = s / 3600;
    let m = (s % 3600) / 60;
    let sec = s % 60;
    if h > 0 {
        decimal(h) + "h "@ + decimal(m) + "m "@ + decimal(sec) + "s"@
    } else if m > 0 {
        decimal(m) + "m "@ + decimal(sec) + "s"@
    } else {
        decimal(sec) + "s"@
    }
}

/// A duration of `total_secs` seconds as text.
pub fn format_secs(total_secs: u64) -> (r: String)
    ensures
        r@ == duration_text(total_secs as nat),
{
    let hours = total_secs / 3600;
    let minutes = (total_secs % 3600) / 60;
    let seconds = total_secs % 60;
    let mut v: Vec<char> = Vec::new();
    if hours > 0 {
        push_decimal(&mut v, hours);
        push_str(&mut v, "h ");
        push_decimal(&mut v, minutes);
        push_str(&mut v, "m ");
        push_decimal(&mut v, seconds);
        push_str(&mut v, "s");
    } else if minutes > 0 {
        push_decimal(&mut v, minutes);
        push_str(&mut v, "m ");
        push_decimal(&mut v, seconds);
        push_str(&mut v, "s");
    } else {
        push_decimal(&mut v, seconds);
        push_str(&mut v, "s");
    }
    string_of(v.as_slice())
}

/// `duration`, in whole seconds, as text.
pub fn format_duration(duration: Duration) -> (r: String)
    ensures
        r@ == duration_text(secs_of(duration) as nat),
{
    let s = whole_seconds(&duration);
    format_secs(s)
}

} // verus!
