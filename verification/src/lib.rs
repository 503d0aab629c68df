//! A lenient clock-time engine: parse a human-entered `H:M:S` string
//! (optionally suffixed with an AM/PM marker) into a validated time-of-day
//! value, and render that value back in 24-hour or 12-hour form.

use vstd::prelude::*;

pub mod laws;
pub mod text;

verus! {

/// The mathematical content of a clock time: three plain numbers.
pub ghost struct ClockView {
    pub hours: u8,
    pub minutes: u8,
    pub seconds: u8,
}

impl ClockView {
    /// Every live `ClockTime` satisfies this range condition.
    pub open spec fn in_range(self) -> bool {
        self.hours < 24 && self.minutes < 60 && self.seconds < 60
    }
}

/// A validated, immutable time-of-day value. The only way to obtain one is
/// through `new` or `parse`, both of which enforce the field ranges, so an
/// out-of-range `ClockTime` cannot exist.
pub struct ClockTime {
    hours: u8,
    minutes: u8,
    seconds: u8,
}

impl View for ClockTime {
    type V = ClockView;

    closed spec fn view(&self) -> ClockView {
        ClockView { hours: self.hours, minutes: self.minutes, seconds: self.seconds }
    }
}

/// The two supported rendering modes.
pub enum TimeFormat {
    TwentyFour,
    Twelve,
}

/// Why parsing or validation failed; carries no payload beyond its kind.
#[derive(Debug)]
pub enum ParseClockTimeError {
    BadFormat,
    HoursOverflow,
    InvalidHours,
    InvalidMinutes,
    InvalidSeconds,
}

pub type ClockResult = Result<ClockTime, ParseClockTimeError>;

/// What `new` returns: the first field out of range (hours checked before
/// minutes before seconds) names the error; otherwise the validated value.
pub open spec fn spec_construct(hours: u8, minutes: u8, seconds: u8) -> Result<
    ClockView,
    ParseClockTimeError,
> {
    if hours >= 24 {
        Err(ParseClockTimeError::InvalidHours)
    } else if minutes >= 60 {
        Err(ParseClockTimeError::InvalidMinutes)
    } else if seconds >= 60 {
        Err(ParseClockTimeError::InvalidSeconds)
    } else {
        Ok(ClockView { hours, minutes, seconds })
    }
}

impl ClockTime {
    #[verifier::type_invariant]
    spec fn type_inv(self) -> bool {
        self@.in_range()
    }

    /// Range check on the three candidate fields, hours first, then minutes,
    /// then seconds; the first violation decides the error.
    fn validate(hours: u8, minutes: u8, seconds: u8) -> (r: Result<(), ParseClockTimeError>)
        ensures
            r is Ok <==> spec_construct(hours, minutes, seconds) is Ok,
            r matches Err(e) ==> spec_construct(hours, minutes, seconds) == Err::<
                ClockView,
                ParseClockTimeError,
            >(e),
    {
        if hours >= 24 {
            return Err(ParseClockTimeError::InvalidHours);
        }
        if minutes >= 60 {
            return Err(ParseClockTimeError::InvalidMinutes);
        }
        if seconds >= 60 {
            return Err(ParseClockTimeError::InvalidSeconds);
        }
        Ok(())
    }
}

/// The single validating constructor: succeeds exactly on in-range fields,
/// and reports the first out-of-range field otherwise.
pub fn new(hours: u8, minutes: u8, seconds: u8) -> (r: ClockResult)
    ensures
        match r {
            Ok(t) => spec_construct(hours, minutes, seconds) == Ok::<
                ClockView,
                ParseClockTimeError,
            >(t@),
            Err(e) => spec_construct(hours, minutes, seconds) == Err::<
                ClockView,
                ParseClockTimeError,
            >(e),
        },
{
    match ClockTime::validate(hours, minutes, seconds) {
        Ok(_) => Ok(ClockTime { hours, minutes, seconds }),
        Err(err) => Err(err),
    }
}

/// What `to_string` yields: every numeric field zero-padded to two digits;
/// the 12-hour form shows hour twelve for stored hours zero and twelve, and
/// marks stored hours below twelve AM, the rest PM.
pub open spec fn spec_render(t: ClockView, format: TimeFormat) -> Seq<char> {
    match format {
        TimeFormat::TwentyFour => text::two_digits(t.hours as nat) + seq![':'] + text::two_digits(
            t.minutes as nat,
        ) + seq![':'] + text::two_digits(t.seconds as nat),
        TimeFormat::Twelve => {
            let display = if t.hours % 12 == 0 {
                12 as nat
            } else {
                (t.hours % 12) as nat
            };
            let marker = if t.hours < 12 {
                seq!['A', 'M']
            } else {
                seq!['P', 'M']
            };
            text::two_digits(display) + seq![':'] + text::two_digits(t.minutes as nat) + seq![':']
                + text::two_digits(t.seconds as nat) + seq![' '] + marker
        },
    }
}

/// The one-character string for a digit value.
fn digit_str(d: u8) -> (r: &'static str)
    requires
        d < 10,
    ensures
        r@ == seq![text::digit_char(d as nat)],
{
    proof {
        reveal_strlit("0");
        reveal_strlit("1");
        reveal_strlit("2");
        reveal_strlit("3");
        reveal_strlit("4");
        reveal_strlit("5");
        reveal_strlit("6");
        reveal_strlit("7");
        reveal_strlit("8");
        reveal_strlit("9");
    }
    match d {
        0 => "0",
        1 => "1",
        2 => "2",
        3 => "3",
        4 => "4",
        5 => "5",
        6 => "6",
        7 => "7",
        8 => "8",
        _ => "9",
    }
}

/// Append a number below one hundred as exactly two decimal digits.
fn push_two_digits(out: &mut String, n: u8)
    requires
        n < 100,
    ensures
        final(out)@ == old(out)@ + text::two_digits(n as nat),
{
    out.append(digit_str(n / 10));
    out.append(digit_str(n % 10));
    proof {
        assert(old(out)@ + seq![text::digit_char((n / 10) as nat)] + seq![
            text::digit_char((n % 10) as nat),
        ] =~= old(out)@ + text::two_digits(n as nat));
    }
}

impl ClockTime {
    /// Render the value under the selected format, exactly as `spec_render`
    /// describes it. Total: the range invariant keeps every field small
    /// enough for two digits.
    pub fn to_string(&self, format: TimeFormat) -> (r: String)
        ensures
            r@ == spec_render(self@, format),
    {
        proof {
            use_type_invariant(self);
            reveal_strlit(":");
            reveal_strlit(" AM");
            reveal_strlit(" PM");
        }
        let mut out = String::new();
        match format {
            TimeFormat::TwentyFour => {
                push_two_digits(&mut out, self.hours);
                out.append(":");
                push_two_digits(&mut out, self.minutes);
                out.append(":");
                push_two_digits(&mut out, self.seconds);
                proof {
                    assert(out@ =~= spec_render(self@, format));
                }
            },
            TimeFormat::Twelve => {
                let mod_hours = self.hours % 12;
                let display_hours: u8 = if mod_hours == 0 {
                    12
                } else {
                    mod_hours
                };
                push_two_digits(&mut out, display_hours);
                out.append(":");
                push_two_digits(&mut out, self.minutes);
                out.append(":");
                push_two_digits(&mut out, self.seconds);
                if self.hours < 12 {
                    out.append(" AM");
                } else {
                    out.append(" PM");
                }
                proof {
                    assert(out@ =~= spec_render(self@, format));
                }
            },
        }
        out
    }
}

/// The cycle marker read from the seconds segment; a parse-time notion
/// only, discarded once the hours are resolved to 24-hour form.
#[derive(Debug)]
enum CycleType {
    AM,
    PM,
}

/// Resolve a 12-hour-clock hour under its cycle marker: AM keeps the value,
/// PM adds twelve unless the hour is exactly twelve (noon stays twelve).
fn cycle_hours_to_24(hours: u8, cycle: CycleType) -> (r: u8)
    requires
        hours <= 12,
    ensures
        r == (if cycle is PM && hours != 12 {
            (hours + 12) as u8
        } else {
            hours
        }),
{
    match cycle {
        CycleType::AM => hours,
        CycleType::PM => {
            if hours != 12 {
                hours + 12
            } else {
                hours
            }
        },
    }
}

/// What `parse` yields on any input, read off the raw character sequence:
/// exactly three ':'-separated segments, each trimmed; a seconds segment
/// with any non-digit must carry an AM/PM marker (PM wins when both
/// occur); the three fields read as unsigned bytes, the seconds field from
/// its first whitespace-delimited token only; a marker caps the hours at
/// twelve and converts them to 24-hour form; and the resolved triple must
/// pass the range check of `spec_construct`.
pub open spec fn spec_parse(s: Seq<char>) -> Result<ClockView, ParseClockTimeError> {
    let segs = text::split_colon(s);
    if segs.len() != 3 {
        Err(ParseClockTimeError::BadFormat)
    } else {
        let hs = text::trim(segs[0]);
        let ms = text::trim(segs[1]);
        let ss = text::trim(segs[2]);
        let marked = text::has_non_digit(ss);
        let is_pm = text::contains_upper(ss, 'P', 'M');
        let is_am = text::contains_upper(ss, 'A', 'M');
        if marked && !is_pm && !is_am {
            Err(ParseClockTimeError::BadFormat)
        } else if text::spec_parse_u8(hs) is None || text::spec_parse_u8(ms) is None
            || text::spec_parse_u8(text::first_token(ss)) is None {
            Err(ParseClockTimeError::BadFormat)
        } else {
            let h = text::spec_parse_u8(hs)->Some_0;
            let m = text::spec_parse_u8(ms)->Some_0;
            let sec = text::spec_parse_u8(text::first_token(ss))->Some_0;
            if marked && h > 12 {
                Err(ParseClockTimeError::HoursOverflow)
            } else {
                let resolved = if marked && is_pm && h != 12 {
                    (h + 12) as u8
                } else {
                    h
                };
                spec_construct(resolved, m, sec)
            }
        }
    }
}

/// Parse a raw clock-time string, exactly as `spec_parse` describes it.
pub fn parse(input: &str) -> (r: ClockResult)
    ensures
        match r {
            Ok(t) => spec_parse(input@) == Ok::<ClockView, ParseClockTimeError>(t@),
            Err(e) => spec_parse(input@) == Err::<ClockView, ParseClockTimeError>(e),
        },
{
    let chars = text::chars_of(input);
    let segs = text::split_on_colon(&chars);
    if segs.len() != 3 {
        return Err(ParseClockTimeError::BadFormat);
    }
    proof {
        assert(segs@[0]@ == text::split_colon(input@)[0]);
        assert(segs@[1]@ == text::split_colon(input@)[1]);
        assert(segs@[2]@ == text::split_colon(input@)[2]);
    }
    let h_seg = text::trim_chars(&segs[0]);
    let m_seg = text::trim_chars(&segs[1]);
    let s_seg = text::trim_chars(&segs[2]);

    let marked = text::has_no_numerics(&s_seg);
    let cycle: Option<CycleType> = if marked {
        if text::contains_marker(&s_seg, 'P', 'M') {
            Some(CycleType::PM)
        } else if text::contains_marker(&s_seg, 'A', 'M') {
            Some(CycleType::AM)
        } else {
            return Err(ParseClockTimeError::BadFormat);
        }
    } else {
        None
    };

    let hours = match text::parse_u8_chars(&h_seg) {
        Some(h) => h,
        None => {
            return Err(ParseClockTimeError::BadFormat);
        },
    };
    let minutes = match text::parse_u8_chars(&m_seg) {
        Some(m) => m,
        None => {
            return Err(ParseClockTimeError::BadFormat);
        },
    };
    let sec_token = text::first_token_chars(&s_seg);
    let seconds = match text::parse_u8_chars(&sec_token) {
        Some(s) => s,
        None => {
            return Err(ParseClockTimeError::BadFormat);
        },
    };

    let resolved = match cycle {
        Some(cy) => {
            if hours > 12 {
                return Err(ParseClockTimeError::HoursOverflow);
            }
            cycle_hours_to_24(hours, cy)
        },
        None => hours,
    };
    new(resolved, minutes, seconds)
}

} // verus!
