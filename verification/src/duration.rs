//! ISO 8601 durations with millisecond precision.
//!
//! Parsing goes through the `iso8601` crate; the parsed fields are then
//! turned into a millisecond count, rejecting years and months, whose length
//! is not fixed. Formatting mirrors the ISO 8601 form `PT{seconds}S`, with a
//! trimmed millisecond fraction when one is present.

use vstd::prelude::*;
use vstd::string::StringExecFns;
use core::str::FromStr;

verus! {

/// Failures of duration parsing.
#[derive(Clone, Copy, Debug, PartialEq, Eq, Structural)]
pub enum DurationParseError {
    /// The text is not a duration of the ISO 8601 grammar.
    Unparsable,
    /// The duration uses year or month units, which are not supported.
    UnsupportedYearsAndMonths,
}

/// The fields of a parsed ISO 8601 duration, as the parser reports them.
#[derive(Clone, Copy, Debug, PartialEq, Eq, Structural)]
pub enum IsoDurationValue {
    Ymdhms {
        year: u32,
        month: u32,
        day: u32,
        hour: u32,
        minute: u32,
        second: u32,
        millisecond: u32,
    },
    Weeks(u32),
}

/// What `iso8601::Duration::from_str` parses the given characters to, if
/// anything.
pub uninterp spec fn iso_duration_str(s: Seq<char>) -> Option<IsoDurationValue>;

/// Relies on iso8601's `Duration::from_str`: it parses the RFC 3339
/// duration grammar, and the result depends on the characters alone.
#[verifier::external_body]
fn parse_iso_duration(s: &str) -> (r: Option<IsoDurationValue>)
    ensures
        r == iso_duration_str(s@),
{
    match iso8601::Duration::from_str(s) {
        Ok(iso8601::Duration::YMDHMS { year, month, day, hour, minute, second, millisecond }) =>
            Some(
            IsoDurationValue::Ymdhms { year, month, day, hour, minute, second, millisecond },
        ),
        Ok(iso8601::Duration::Weeks(w)) => Some(IsoDurationValue::Weeks(w)),
        Err(_) => None,
    }
}

/// Relies on u64's `Display` implementation: it writes the value's decimal
/// digits, most significant first.
#[verifier::external_body]
fn u64_to_decimal(n: u64) -> (r: String)
    ensures
        r@ == spec_decimal(n as nat),
{
    format!("{}", n)
}

/// The decimal digit character of a value below ten.
pub open spec fn spec_digit(d: nat) -> char {
    if d == 0 {
        '0'
    } else if d == 1 {
        '1'
    } else if d == 2 {
        '2'
    } else if d == 3 {
        '3'
    } else if d == 4 {
        '4'
    } else if d == 5 {
        '5'
    } else if d == 6 {
        '6'
    } else if d == 7 {
        '7'
    } else if d == 8 {
        '8'
    } else {
        '9'
    }
}

/// The decimal digits of a value, most significant first.
pub open spec fn spec_decimal(n: nat) -> Seq<char>
    decreases n,
{
    if n < 10 {
        seq![spec_digit(n)]
    } else {
        spec_decimal(n / 10).push(spec_digit(n % 10))
    }
}

/// The millisecond count the parsed fields stand for, ignoring years and
/// months.
pub open spec fn spec_millis_of(v: IsoDurationValue) -> int {
    match v {
        IsoDurationValue::Ymdhms { day, hour, minute, second, millisecond, .. } => day
            * 86400000 + hour * 3600000 + minute * 60000 + second * 1000 + millisecond,
        IsoDurationValue::Weeks(w) => w * 604800000,
    }
}

/// Whether the parsed fields can be converted: no year or month units.
pub open spec fn spec_convertible(v: IsoDurationValue) -> bool {
    match v {
        IsoDurationValue::Ymdhms { year, month, .. } => year == 0 && month == 0,
        IsoDurationValue::Weeks(..) => true,
    }
}

/// A span of time with millisecond precision.
#[derive(Clone, Copy, Debug, PartialEq, Eq, Structural)]
pub struct Duration {
    milliseconds: i64,
}

impl Duration {
    /// The length in milliseconds, as a spec value.
    pub closed spec fn spec_milliseconds(self) -> int {
        self.milliseconds as int
    }
}

/// The millisecond fraction of a second, as ISO 8601 prints it: three
/// digits, zero padded, with trailing zeros removed.
pub open spec fn spec_frac(ms: nat) -> Seq<char> {
    if ms % 10 != 0 {
        if ms < 10 {
            seq!['0', '0'] + spec_decimal(ms)
        } else if ms < 100 {
            seq!['0'] + spec_decimal(ms)
        } else {
            spec_decimal(ms)
        }
    } else if ms % 100 != 0 {
        if ms / 10 < 10 {
            seq!['0'] + spec_decimal(ms / 10)
        } else {
            spec_decimal(ms / 10)
        }
    } else {
        spec_decimal(ms / 100)
    }
}

/// The ISO 8601 text of a millisecond count: `P0D` for zero, else the sign,
/// `PT`, the whole seconds, the trimmed millisecond fraction if any, `S`.
pub open spec fn spec_iso_string(m: int) -> Seq<char> {
    if m == 0 {
        seq!['P', '0', 'D']
    } else {
        let sign: Seq<char> = if m < 0 {
            seq!['-']
        } else {
            Seq::<char>::empty()
        };
        let a = if m < 0 {
            -m
        } else {
            m
        };
        let frac: Seq<char> = if a % 1000 == 0 {
            Seq::<char>::empty()
        } else {
            seq!['.'] + spec_frac((a % 1000) as nat)
        };
        sign + seq!['P', 'T'] + spec_decimal((a / 1000) as nat) + frac + seq!['S']
    }
}

impl Duration {
    /// A duration of the given number of milliseconds.
    pub fn from_milliseconds(milliseconds: i64) -> (r: Duration)
        ensures
            r.spec_milliseconds() == milliseconds,
    {
        Duration { milliseconds }
    }

    /// The length in milliseconds.
    pub fn milliseconds(&self) -> (r: i64)
        ensures
            r == self.spec_milliseconds(),
    {
        self.milliseconds
    }

    /// The number of whole seconds, rounded towards zero.
    pub fn num_seconds(&self) -> (r: i64)
        requires
            self.spec_milliseconds() != i64::MIN,
        ensures
            self.spec_milliseconds() >= 0 ==> r == self.spec_milliseconds() / 1000,
            self.spec_milliseconds() < 0 ==> r == -((-self.spec_milliseconds()) / 1000),
    {
        if self.milliseconds >= 0 {
            self.milliseconds / 1000
        } else {
            -((-self.milliseconds) / 1000)
        }
    }

    /// Converts parsed ISO 8601 fields: years and months are rejected, the
    /// remaining units are summed into milliseconds.
    pub fn from_iso(v: IsoDurationValue) -> (r: Result<Duration, DurationParseError>)
        ensures
            match r {
                Ok(d) => spec_convertible(v) && d.spec_milliseconds() == spec_millis_of(v),
                Err(e) => e == DurationParseError::UnsupportedYearsAndMonths && !spec_convertible(
                    v,
                ),
            },
    {
        match v {
            IsoDurationValue::Ymdhms { year, month, day, hour, minute, second, millisecond } => {
                if year != 0 || month != 0 {
                    return Err(DurationParseError::UnsupportedYearsAndMonths);
                }
                let total: i64 = (day as i64) * 86400000 + (hour as i64) * 3600000 + (minute
                    as i64) * 60000 + (second as i64) * 1000 + (millisecond as i64);
                Ok(Duration { milliseconds: total })
            },
            IsoDurationValue::Weeks(w) => Ok(Duration { milliseconds: (w as i64) * 604800000 }),
        }
    }

    /// Parses an ISO 8601 duration. Text outside the grammar and durations
    /// with year or month units are rejected.
    pub fn parse(s: &str) -> (r: Result<Duration, DurationParseError>)
        ensures
            match r {
                Ok(d) => (iso_duration_str(s@) matches Some(v) && spec_convertible(v)
                    && d.spec_milliseconds() == spec_millis_of(v)),
                Err(e) => (e == DurationParseError::Unparsable && iso_duration_str(s@) is None)
                    || (e == DurationParseError::UnsupportedYearsAndMonths && (iso_duration_str(
                    s@,
                ) matches Some(v) && !spec_convertible(v))),
            },
    {
        match parse_iso_duration(s) {
            None => Err(DurationParseError::Unparsable),
            Some(v) => Duration::from_iso(v),
        }
    }

    /// The ISO 8601 text of this duration, as `PT{seconds}S` with a trimmed
    /// fraction, `P0D` for zero, and a leading sign when negative.
    pub fn to_iso_string(&self) -> (r: String)
        requires
            self.spec_milliseconds() != i64::MIN,
        ensures
            r@ == spec_iso_string(self.spec_milliseconds()),
    {
        if self.milliseconds == 0 {
            let r = "P0D".to_owned();
            proof {
                reveal_strlit("P0D");
                assert(r@ =~= seq!['P', '0', 'D']);
            }
            return r;
        }
        let neg = self.milliseconds < 0;
        let abs: u64 = if neg {
            (-self.milliseconds) as u64
        } else {
            self.milliseconds as u64
        };
        let secs = abs / 1000;
        let ms = abs % 1000;
        let mut out = String::new();
        if neg {
            out.append("-");
            proof {
                reveal_strlit("-");
                assert(out@ =~= seq!['-']);
            }
        }
        let ghost sign_part = out@;
        out.append("PT");
        proof {
            reveal_strlit("PT");
            assert(out@ =~= sign_part + seq!['P', 'T']);
        }
        let sec_str = u64_to_decimal(secs);
        out.append(sec_str.as_str());
        if ms != 0 {
            let ghost whole_part = out@;
            out.append(".");
            proof {
                reveal_strlit(".");
                assert(out@ =~= whole_part + seq!['.']);
            }
            if ms % 10 != 0 {
                if ms < 10 {
                    out.append("00");
                    proof {
                        reveal_strlit("00");
                        assert(out@ =~= whole_part + seq!['.'] + seq!['0', '0']);
                    }
                } else if ms < 100 {
                    out.append("0");
                    proof {
                        reveal_strlit("0");
                        assert(out@ =~= whole_part + seq!['.'] + seq!['0']);
                    }
                }
                let frac_str = u64_to_decimal(ms);
                out.append(frac_str.as_str());
            } else if ms % 100 != 0 {
                let tens = ms / 10;
                if tens < 10 {
                    out.append("0");
                    proof {
                        reveal_strlit("0");
                        assert(out@ =~= whole_part + seq!['.'] + seq!['0']);
                    }
                }
                let frac_str = u64_to_decimal(tens);
                out.append(frac_str.as_str());
            } else {
                let frac_str = u64_to_decimal(ms / 100);
                out.append(frac_str.as_str());
            }
            proof {
                assert(out@ =~= whole_part + seq!['.'] + spec_frac(ms as nat));
            }
        }
        let ghost before_s = out@;
        out.append("S");
        proof {
            reveal_strlit("S");
            assert(out@ =~= before_s + seq!['S']);
            assert(out@ =~= spec_iso_string(self.milliseconds as int));
        }
        out
    }
}

} // verus!
