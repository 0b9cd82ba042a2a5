use vstd::prelude::*;
use super::WorldState;
use crate::text::{append_chars, chars_of, digit_char, nat_text, string_from_chars, u64_chars};

verus! {

pub open spec fn minutes_per_day() -> nat {
    1440
}

/// A number below one hundred written with two digits.
pub open spec fn two_digits(n: nat) -> Seq<char> {
    seq![digit_char(n / 10), digit_char(n % 10)]
}

/// Twelve-hour clock text for a minute count, such as `9:05 AM`.
pub open spec fn clock_text(total_minutes: nat) -> Seq<char> {
    let hour24 = (total_minutes / 60) % 24;
    let minute = total_minutes % 60;
    let hour12 = if hour24 % 12 == 0 { 12 } else { hour24 % 12 };
    let meridiem = if hour24 >= 12 { "PM"@ } else { "AM"@ };
    nat_text(hour12) + ":"@ + two_digits(minute) + " "@ + meridiem
}

/// Two-digit text of a number below one hundred.
pub fn two_digit_chars(n: u64) -> (r: Vec<char>)
    requires
        n < 100,
    ensures
        r@ == two_digits(n as nat),
{
    let tens = u64_chars(n / 10);
    let ones = u64_chars(n % 10);
    let mut r = tens;
    append_chars(&mut r, &ones);
    assert(r@ =~= two_digits(n as nat));
    r
}

pub fn format_clock_time(total_minutes: u32) -> (r: String)
    ensures
        r@ == clock_text(total_minutes as nat),
{
    let hour24 = (total_minutes / 60) % 24;
    let minute = total_minutes % 60;
    let hour12 = if hour24 % 12 == 0 { 12 } else { hour24 % 12 };
    let mut out = u64_chars(hour12 as u64);
    append_chars(&mut out, &chars_of(":"));
    append_chars(&mut out, &two_digit_chars(minute as u64));
    append_chars(&mut out, &chars_of(" "));
    if hour24 >= 12 {
        append_chars(&mut out, &chars_of("PM"));
    } else {
        append_chars(&mut out, &chars_of("AM"));
    }
    string_from_chars(&out)
}

impl WorldState {
    pub fn current_time_label(&self) -> (r: String)
        ensures
            r@ == clock_text(self.current_time_minutes as nat),
    {
        format_clock_time(self.current_time_minutes)
    }

    /// Day of play, counting from one.
    pub fn current_day_number(&self) -> (r: u32)
        ensures
            r == self.current_time_minutes / 1440 + 1,
    {
        (self.current_time_minutes / 1440) + 1
    }

    pub fn current_time_note(&self) -> (r: String)
        ensures
            r@ == "It is "@ + clock_text(self.current_time_minutes as nat) + "."@,
    {
        let mut out = chars_of("It is ");
        append_chars(&mut out, &chars_of(self.current_time_label().as_str()));
        append_chars(&mut out, &chars_of("."));
        string_from_chars(&out)
    }
}


/// A full day later the day number is one more and the clock reads the same.
pub proof fn law_a_day_later(minutes: nat)
    ensures
        (minutes + minutes_per_day()) / minutes_per_day() + 1 == minutes / minutes_per_day() + 2,
        clock_text(minutes + minutes_per_day()) == clock_text(minutes),
{
    assert((minutes + 1440) / 1440 == minutes / 1440 + 1) by (nonlinear_arith);
    assert((minutes + 1440) % 1440 == minutes % 1440) by (nonlinear_arith);
    assert(((minutes + 1440) / 60) % 24 == (minutes / 60) % 24) by (nonlinear_arith);
    assert((minutes + 1440) % 60 == minutes % 60) by (nonlinear_arith);
}

} // verus!
