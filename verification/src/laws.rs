//! The engine's laws: what construction, rendering and parsing guarantee
//! together, proved over the same spec functions that the public contracts
//! use.

use vstd::prelude::*;

use crate::text;
use crate::{spec_construct, spec_parse, spec_render, ClockView, ParseClockTimeError, TimeFormat};

verus! {

/// In-range fields always construct, and the 24-hour rendering of the
/// value is its three fields, each zero-padded to two digits, with ':'
/// between them.
pub proof fn lemma_construct_renders_padded(hours: u8, minutes: u8, seconds: u8)
    requires
        hours < 24,
        minutes < 60,
        seconds < 60,
    ensures
        spec_construct(hours, minutes, seconds) == Ok::<ClockView, ParseClockTimeError>(
            ClockView { hours, minutes, seconds },
        ),
        ({
            let r = spec_render(ClockView { hours, minutes, seconds }, TimeFormat::TwentyFour);
            &&& r.len() == 8
            &&& r[0] == text::digit_char(hours as nat / 10)
            &&& r[1] == text::digit_char(hours as nat % 10)
            &&& r[2] == ':'
            &&& r[3] == text::digit_char(minutes as nat / 10)
            &&& r[4] == text::digit_char(minutes as nat % 10)
            &&& r[5] == ':'
            &&& r[6] == text::digit_char(seconds as nat / 10)
            &&& r[7] == text::digit_char(seconds as nat % 10)
        }),
{
}

/// Out-of-range fields are rejected, and the first offending field in the
/// order hours, minutes, seconds names the error.
pub proof fn lemma_construct_first_invalid_field(hours: u8, minutes: u8, seconds: u8)
    ensures
        hours >= 24 ==> spec_construct(hours, minutes, seconds) == Err::<
            ClockView,
            ParseClockTimeError,
        >(ParseClockTimeError::InvalidHours),
        hours < 24 && minutes >= 60 ==> spec_construct(hours, minutes, seconds) == Err::<
            ClockView,
            ParseClockTimeError,
        >(ParseClockTimeError::InvalidMinutes),
        hours < 24 && minutes < 60 && seconds >= 60 ==> spec_construct(hours, minutes, seconds)
            == Err::<ClockView, ParseClockTimeError>(ParseClockTimeError::InvalidSeconds),
{
}

/// Round trip: every valid clock time other than midnight parses back from
/// its 12-hour rendering to exactly the same value. Midnight is the one
/// exception: it renders as hour twelve AM, and the parser keeps a
/// marker-carrying hour twelve as twelve.
pub proof fn lemma_parse_render_twelve_round_trip(v: ClockView)
    requires
        v.in_range(),
        v.hours != 0,
    ensures
        spec_parse(spec_render(v, TimeFormat::Twelve)) == Ok::<ClockView, ParseClockTimeError>(v),
{
    let display: nat = if v.hours % 12 == 0 {
        12 as nat
    } else {
        (v.hours % 12) as nat
    };
    let mk0: char = if v.hours < 12 {
        'A'
    } else {
        'P'
    };
    let ta = text::two_digits(display);
    let tb = text::two_digits(v.minutes as nat);
    let ts = text::two_digits(v.seconds as nat);
    let r = spec_render(v, TimeFormat::Twelve);
    text::lemma_two_digits_parse(display);
    text::lemma_two_digits_parse(v.minutes as nat);
    text::lemma_two_digits_parse(v.seconds as nat);
    text::lemma_digit_char(display / 10);
    text::lemma_digit_char(display % 10);
    text::lemma_digit_char(v.minutes as nat / 10);
    text::lemma_digit_char(v.minutes as nat % 10);
    text::lemma_digit_char(v.seconds as nat / 10);
    text::lemma_digit_char(v.seconds as nat % 10);

    let cs = seq![ts[0], ts[1], ' ', mk0, 'M'];
    assert(r =~= ta + seq![':'] + tb + seq![':'] + cs);

    text::lemma_split_colon_three(ta, tb, cs);
    let segs = text::split_colon(r);
    assert(segs == seq![ta, tb, cs]);

    text::lemma_trim_id(ta);
    text::lemma_trim_id(tb);
    assert(!text::is_space(cs[0]));
    assert(!text::is_space(cs.last()));
    text::lemma_trim_id(cs);

    // The seconds segment carries a non-digit, so a marker is required.
    assert(text::has_non_digit(cs)) by {
        assert(!text::is_digit(cs[2]));
    }

    // The marker at position 3 is found.
    assert(text::contains_upper(cs, mk0, 'M')) by {
        let j: int = 3;
        assert(text::upper(cs[j]) == mk0 && text::upper(cs[j + 1]) == 'M');
    }

    // "PM" is never found when the marker is AM.
    if v.hours < 12 {
        assert forall|i: int| 0 <= i && i + 2 <= cs.len() implies !(text::upper(
            #[trigger] cs[i],
        ) == 'P' && text::upper(cs[i + 1]) == 'M') by {
            assert(text::upper(cs[0]) == cs[0]);
            assert(text::upper(cs[1]) == cs[1]);
            assert(text::upper(cs[2]) == ' ');
            assert(text::upper(cs[3]) == 'A');
        }
        assert(!text::contains_upper(cs, 'P', 'M'));
    }

    // The first whitespace-delimited token of the seconds segment is its
    // two digits.
    let c1 = cs.drop_first();
    let c2 = c1.drop_first();
    assert(text::is_space(c2[0]));
    assert(text::leading_run(c2) == 0);
    assert(!text::is_space(c1[0]));
    assert(text::leading_run(c1) == 1 + text::leading_run(c2));
    assert(!text::is_space(cs[0]));
    assert(text::leading_run(cs) == 1 + text::leading_run(c1));
    assert(text::first_token(cs) =~= ts);

    // All three fields read back as the rendered numbers.
    assert(text::spec_parse_u8(ta) == Some(display as u8));
    assert(text::spec_parse_u8(tb) == Some(v.minutes));
    assert(text::spec_parse_u8(text::first_token(cs)) == Some(v.seconds));

    // Resolving the marker undoes the 12-hour display conversion.
    if v.hours < 12 {
        assert(display == v.hours as nat);
        assert(spec_parse(r) == spec_construct(v.hours, v.minutes, v.seconds));
    } else if v.hours == 12 {
        assert(display == 12);
        assert(spec_parse(r) == spec_construct(v.hours, v.minutes, v.seconds));
    } else {
        assert(display == v.hours - 12);
        assert(spec_parse(r) == spec_construct(v.hours, v.minutes, v.seconds));
    }
}

/// Noon and midnight both display as hour twelve in 12-hour form: stored
/// hour zero renders "12:MM:SS AM" and stored hour twelve "12:MM:SS PM".
pub proof fn lemma_noon_midnight_render(v: ClockView)
    requires
        v.in_range(),
        v.hours == 0 || v.hours == 12,
    ensures
        spec_render(v, TimeFormat::Twelve).len() == 11,
        spec_render(v, TimeFormat::Twelve)[0] == '1',
        spec_render(v, TimeFormat::Twelve)[1] == '2',
        spec_render(v, TimeFormat::Twelve)[9] == (if v.hours == 0 {
            'A'
        } else {
            'P'
        }),
        spec_render(v, TimeFormat::Twelve)[10] == 'M',
{
    let r = spec_render(v, TimeFormat::Twelve);
    assert(v.hours % 12 == 0);
    assert(text::two_digits(12)[0] == '1');
    assert(text::two_digits(12)[1] == '2');
    assert(r.len() == 11);
}

} // verus!
