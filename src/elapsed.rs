use vstd::prelude::*;

use std::time::{Duration, Instant};

verus! {

/// The monotonic clock reading that a run is timed from.
#[verifier::external_type_specification]
#[verifier::external_body]
pub struct ExInstant(Instant);

/// Relies on `Instant::elapsed`: the time since `start` on the monotonic clock. Nothing
/// is known of its value.
pub assume_specification[ Instant::elapsed ](start: &Instant) -> Duration;

/// Relies on `Duration::as_secs`: the whole seconds of a duration.
pub assume_specification[ Duration::as_secs ](d: &Duration) -> u64;

/// Relies on `Duration::subsec_nanos`: the fractional part of a duration in nanoseconds,
/// which its documentation puts below one billion.
pub assume_specification[ Duration::subsec_nanos ](d: &Duration) -> (n: u32)
    ensures
        n < 1_000_000_000,
;

/// The character of a decimal digit.
pub open spec fn digit_char(d: int) -> char {
    if d == 0 {
        '0'
    } else if d == 1 {
        '1'
    } else if d == 2 {
        '2'
    } else if d == 3 {
        '3'
    } else if d == 4 {
        '4'
    } else if d == 5 {
        '5'
    } else if d == 6 {
        '6'
    } else if d == 7 {
        '7'
    } else if d == 8 {
        '8'
    } else {
        '9'
    }
}

/// `n` written in decimal, without leading zeros.
pub open spec fn decimal_text(n: nat) -> Seq<char>
    decreases n,
{
    if n < 10 {
        seq![digit_char(n as int)]
    } else {
        decimal_text(n / 10).push(digit_char((n % 10) as int))
    }
}

/// The last two decimal digits of `n`, a leading zero included.
pub open spec fn two_digit_text(n: nat) -> Seq<char> {
    seq![digit_char(((n / 10) % 10) as int), digit_char((n % 10) as int)]
}

/// A duration of `secs` seconds and `nanos` nanoseconds in the unit that suits it:
/// nanoseconds below a microsecond, whole microseconds below a millisecond, whole
/// milliseconds below a second, seconds with two decimals below ten seconds, else whole
/// seconds.
pub open spec fn elapsed_text(secs: nat, nanos: nat) -> Seq<char> {
    if secs == 0 && nanos < 1000 {
        decimal_text(nanos) + seq![' ', 'n', 's']
    } else if secs == 0 && nanos < 1_000_000 {
        decimal_text(nanos / 1000) + seq![' ', 'µ', 's']
    } else if secs == 0 {
        decimal_text(nanos / 1_000_000) + seq![' ', 'm', 's']
    } else if secs < 10 {
        decimal_text(secs) + seq!['.'] + two_digit_text(nanos / 10_000_000) + seq![' ', 's']
    } else {
        decimal_text(secs) + seq![' ', 's']
    }
}

fn digit_str(d: u64) -> (s: &'static str)
    requires
        d < 10,
    ensures
        s@ == seq![digit_char(d as int)],
{
    if d == 0 {
        proof { reveal_strlit("0"); }
        "0"
    } else if d == 1 {
        proof { reveal_strlit("1"); }
        "1"
    } else if d == 2 {
        proof { reveal_strlit("2"); }
        "2"
    } else if d == 3 {
        proof { reveal_strlit("3"); }
        "3"
    } else if d == 4 {
        proof { reveal_strlit("4"); }
        "4"
    } else if d == 5 {
        proof { reveal_strlit("5"); }
        "5"
    } else if d == 6 {
        proof { reveal_strlit("6"); }
        "6"
    } else if d == 7 {
        proof { reveal_strlit("7"); }
        "7"
    } else if d == 8 {
        proof { reveal_strlit("8"); }
        "8"
    } else {
        proof { reveal_strlit("9"); }
        "9"
    }
}

/// Appends `n` in decimal to `out`.
fn push_decimal(out: &mut String, n: u64)
    ensures
        final(out)@ == old(out)@ + decimal_text(n as nat),
    decreases n,
{
    if n >= 10 {
        push_decimal(out, n / 10);
    }
    out.append(digit_str(n % 10));
    proof {
        if n >= 10 {
            assert(decimal_text(n as nat) == decimal_text((n / 10) as nat).push(digit_char((n % 10) as int)));
        }
    }
}

/// A measured span of time: whole seconds and the nanoseconds beyond them.
pub struct Elapsed {
    secs: u64,
    nanos: u32,
}

impl Elapsed {
    pub closed spec fn spec_secs(&self) -> nat {
        self.secs as nat
    }

    pub closed spec fn spec_nanos(&self) -> nat {
        self.nanos as nat
    }

    /// The nanoseconds are a fraction of a second.
    pub open spec fn wf(&self) -> bool {
        self.spec_nanos() < 1_000_000_000
    }

    pub fn new(secs: u64, nanos: u32) -> (e: Elapsed)
        requires
            nanos < 1_000_000_000,
        ensures
            e.wf(),
            e.spec_secs() == secs,
            e.spec_nanos() == nanos,
    {
        Elapsed { secs, nanos }
    }

    /// The span of a duration.
    pub fn from_duration(d: &Duration) -> (e: Elapsed)
        ensures
            e.wf(),
    {
        Elapsed { secs: d.as_secs(), nanos: d.subsec_nanos() }
    }

    /// The time that has passed since `start`.
    pub fn from(start: &Instant) -> (e: Elapsed)
        ensures
            e.wf(),
    {
        let d = start.elapsed();
        Elapsed::from_duration(&d)
    }

    pub fn secs(&self) -> (s: u64)
        ensures
            s == self.spec_secs(),
    {
        self.secs
    }

    pub fn nanos(&self) -> (n: u32)
        ensures
            n == self.spec_nanos(),
    {
        self.nanos
    }

    /// The span written for a reader, in the unit that `elapsed_text` picks.
    pub fn to_string(&self) -> (s: String)
        requires
            self.wf(),
        ensures
            s@ == elapsed_text(self.spec_secs(), self.spec_nanos()),
    {
        let mut s = String::new();
        if self.secs == 0 && self.nanos < 1000 {
            push_decimal(&mut s, self.nanos as u64);
            proof { reveal_strlit(" ns"); }
            s.append(" ns");
        } else if self.secs == 0 && self.nanos < 1_000_000 {
            push_decimal(&mut s, (self.nanos / 1000) as u64);
            proof { reveal_strlit(" µs"); }
            s.append(" µs");
        } else if self.secs == 0 {
            push_decimal(&mut s, (self.nanos / 1_000_000) as u64);
            proof { reveal_strlit(" ms"); }
            s.append(" ms");
        } else if self.secs < 10 {
            push_decimal(&mut s, self.secs);
            proof { reveal_strlit("."); }
            s.append(".");
            let hundredths: u64 = (self.nanos / 10_000_000) as u64;
            s.append(digit_str((hundredths / 10) % 10));
            s.append(digit_str(hundredths % 10));
            proof { reveal_strlit(" s"); }
            s.append(" s");
        } else {
            push_decimal(&mut s, self.secs);
            proof { reveal_strlit(" s"); }
            s.append(" s");
        }
        proof {
            assert(s@ =~= elapsed_text(self.spec_secs(), self.spec_nanos()));
        }
        s
    }
}

} // verus!
