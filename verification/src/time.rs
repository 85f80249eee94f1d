//! Unix timestamps: the clock, the civil date of a day count, and the
//! RFC 3339 text of an instant.

use vstd::prelude::*;

use crate::text::push_char;

verus! {

/// Seconds since the Unix epoch by the system clock, zero for a clock set
/// before it (`SystemTime::now` and `duration_since`). Nothing is stated of
/// the value: it is whatever the clock reads.
#[verifier::external_body]
pub fn system_unix_seconds() -> (res: u64) {
    std::time::SystemTime::now()
        .duration_since(std::time::UNIX_EPOCH)
        .unwrap_or_default()
        .as_secs()
}

/// Milliseconds since the Unix epoch by the system clock, zero for a clock
/// set before it (`SystemTime::now`, `duration_since` and `as_millis`).
/// Nothing is stated of the value: it is whatever the clock reads.
#[verifier::external_body]
pub fn system_unix_millis() -> (res: u128) {
    std::time::SystemTime::now()
        .duration_since(std::time::UNIX_EPOCH)
        .unwrap_or_default()
        .as_millis()
}

/// The time of an audit record, in whole seconds since the epoch.
pub fn audit_now() -> (res: i64) {
    system_unix_seconds() as i64
}

/// The current time in whole seconds since the epoch.
pub fn now_unix_seconds() -> (res: i64) {
    system_unix_seconds() as i64
}

/// The year of its era, month and day of the day `doe` of a 400-year era
/// that starts on a 1 March.
pub open spec fn spec_date_in_era(doe: int) -> (int, int, int) {
    let yoe = (doe - doe / 1460 + doe / 36524 - doe / 146096) / 365;
    let doy = doe - (365 * yoe + yoe / 4 - yoe / 100);
    let mp = (5 * doy + 2) / 153;
    let day = doy - (153 * mp + 2) / 5 + 1;
    let month = if mp < 10 {
        mp + 3
    } else {
        mp - 9
    };
    (yoe, month, day)
}

/// The proleptic Gregorian date `(year, month, day)` of the day `days`
/// after 1970-01-01, counted in 400-year eras from 0000-03-01.
pub open spec fn spec_civil_from_days(days: int) -> (int, int, int) {
    let z = days + 719468;
    let era = z / 146097;
    let doe = z - era * 146097;
    let (yoe, month, day) = spec_date_in_era(doe);
    let y = yoe + era * 400;
    let year = if month <= 2 {
        y + 1
    } else {
        y
    };
    (year, month, day)
}

#[verifier::rlimit(40)]
proof fn lemma_date_in_era_bounds(doe: int)
    requires
        0 <= doe < 146097,
    ensures
        0 <= (doe - doe / 1460 + doe / 36524 - doe / 146096) / 365 <= 399,
        0 <= doe - (365 * ((doe - doe / 1460 + doe / 36524 - doe / 146096) / 365) + ((doe - doe / 1460
            + doe / 36524 - doe / 146096) / 365) / 4 - ((doe - doe / 1460 + doe / 36524 - doe
            / 146096) / 365) / 100) <= 365,
{
}

fn date_in_era(doe: i64) -> (res: (i64, i64, i64))
    requires
        0 <= doe < 146097,
    ensures
        (res.0 as int, res.1 as int, res.2 as int) == spec_date_in_era(doe as int),
        0 <= res.0 <= 399,
        1 <= res.1 <= 12,
        1 <= res.2 <= 31,
{
    proof {
        lemma_date_in_era_bounds(doe as int);
    }
    let yoe = (doe - doe / 1460 + doe / 36524 - doe / 146096) / 365;
    let doy = doe - (365 * yoe + yoe / 4 - yoe / 100);
    assert(0 <= doy <= 365);
    let mp = (5 * doy + 2) / 153;
    assert(0 <= mp <= 11);
    let day = doy - (153 * mp + 2) / 5 + 1;
    assert(1 <= day <= 31);
    let month = if mp < 10 {
        mp + 3
    } else {
        mp - 9
    };
    (yoe, month, day)
}

/// The civil date of the day `days` after the epoch.
pub fn civil_from_days(days: i64) -> (res: (i64, u8, u8))
    requires
        -0x4_0000_0000_0000 <= days <= 0x4_0000_0000_0000,
    ensures
        (res.0 as int, res.1 as int, res.2 as int) == spec_civil_from_days(days as int),
        1 <= res.1 <= 12,
        1 <= res.2 <= 31,
{
    let z = days + 719468;
    let era: i64 = if z >= 0 {
        z / 146097
    } else {
        -((146096 - z) / 146097)
    };
    assert(era == (z as int) / 146097) by {
        if z < 0 {
            assert(((146096 - z) as int) / 146097 * 146097 <= 146096 - z);
        }
    }
    let doe = z - era * 146097;
    let (yoe, month, day) = date_in_era(doe);
    let y = yoe + era * 400;
    let year = if month <= 2 {
        y + 1
    } else {
        y
    };
    (year, month as u8, day as u8)
}

/// The decimal digits of `n`, without leading zeros.
pub open spec fn decimal_digits(n: nat) -> Seq<char>
    decreases n,
{
    if n < 10 {
        seq![digit_char(n)]
    } else {
        decimal_digits(n / 10).push(digit_char(n % 10))
    }
}

/// The decimal digit of `d`.
pub open spec fn digit_char(d: nat) -> char {
    seq!['0', '1', '2', '3', '4', '5', '6', '7', '8', '9'][d as int]
}

/// `n` in decimal, padded with zeros on the left to `width` characters.
pub open spec fn zero_padded(n: nat, width: nat) -> Seq<char> {
    let d = decimal_digits(n);
    if d.len() < width {
        Seq::new((width - d.len()) as nat, |i: int| '0') + d
    } else {
        d
    }
}

fn digits_of(n: u64) -> (res: Vec<char>)
    ensures
        res@ == decimal_digits(n as nat),
    decreases n,
{
    let table = vec!['0', '1', '2', '3', '4', '5', '6', '7', '8', '9'];
    if n < 10 {
        let mut v: Vec<char> = Vec::new();
        v.push(table[n as usize]);
        assert(v@ =~= seq![digit_char(n as nat)]);
        v
    } else {
        let mut v = digits_of(n / 10);
        v.push(table[(n % 10) as usize]);
        v
    }
}

/// Appends `n` to `s` in decimal, padded with zeros to `width` characters.
pub fn push_padded(s: &mut String, n: u64, width: usize)
    ensures
        final(s)@ == old(s)@ + zero_padded(n as nat, width as nat),
{
    let d = digits_of(n);
    let ghost start = s@;
    let mut k: usize = d.len();
    let mut pad: usize = 0;
    while k < width
        invariant
            d.len() <= k <= width || (k == d.len() && k >= width),
            pad == k - d.len(),
            s@ == start + Seq::new(pad as nat, |i: int| '0'),
        decreases width - k,
    {
        push_char(s, '0');
        assert(start + Seq::new((pad + 1) as nat, |i: int| '0') =~= (start + Seq::new(
            pad as nat,
            |i: int| '0',
        )).push('0'));
        k += 1;
        pad += 1;
    }
    let ghost padded = s@;
    let mut i: usize = 0;
    while i < d.len()
        invariant
            i <= d.len(),
            s@ == padded + d@.take(i as int),
        decreases d.len() - i,
    {
        push_char(s, d[i]);
        assert(d@.take(i + 1) =~= d@.take(i as int).push(d@[i as int]));
        assert(padded + d@.take(i + 1) =~= (padded + d@.take(i as int)).push(d@[i as int]));
        i += 1;
    }
    proof {
        assert(d@.take(d.len() as int) =~= d@);
        if d@.len() < width {
            assert(pad == width - d@.len());
            assert(s@ =~= start + (Seq::new(pad as nat, |i: int| '0') + d@));
        } else {
            assert(pad == 0);
            assert(s@ =~= start + d@);
        }
    }
}

/// The RFC 3339 text, in UTC with whole seconds, of the instant `seconds`
/// after the epoch; an instant before the epoch is read as the epoch.
pub open spec fn spec_rfc3339(seconds: i64) -> Seq<char> {
    let s: int = if seconds < 0 {
        0
    } else {
        seconds as int
    };
    let days = s / 86400;
    let ds = s % 86400;
    let (y, m, d) = spec_civil_from_days(days);
    zero_padded(y as nat, 4) + "-"@ + zero_padded(m as nat, 2) + "-"@ + zero_padded(d as nat, 2)
        + "T"@ + zero_padded((ds / 3600) as nat, 2) + ":"@ + zero_padded(((ds / 60) % 60) as nat, 2)
        + ":"@ + zero_padded((ds % 60) as nat, 2) + "Z"@
}

/// The RFC 3339 text of the instant `seconds` after the epoch.
pub fn unix_seconds_rfc3339(seconds: i64) -> (res: String)
    ensures
        res@ == spec_rfc3339(seconds),
{
    let s: i64 = if seconds < 0 {
        0
    } else {
        seconds
    };
    let days = s / 86400;
    let ds = s % 86400;
    let (y, m, d) = civil_from_days(days);
    proof {
        let z = days + 719468;
        assert(z >= 719468);
        assert(y >= 0) by {
            let era = (z as int) / 146097;
            let doe = z - era * 146097;
            assert(0 <= doe < 146097);
            let yoe = (doe - doe / 1460 + doe / 36524 - doe / 146096) / 365;
            assert(yoe >= 0);
            assert(era >= 4);
        }
    }
    let mut res = String::new();
    push_padded(&mut res, y as u64, 4);
    push_char(&mut res, '-');
    push_padded(&mut res, m as u64, 2);
    push_char(&mut res, '-');
    push_padded(&mut res, d as u64, 2);
    push_char(&mut res, 'T');
    push_padded(&mut res, (ds / 3600) as u64, 2);
    push_char(&mut res, ':');
    push_padded(&mut res, ((ds / 60) % 60) as u64, 2);
    push_char(&mut res, ':');
    push_padded(&mut res, (ds % 60) as u64, 2);
    push_char(&mut res, 'Z');
    proof {
        reveal_strlit("-");
        reveal_strlit("T");
        reveal_strlit(":");
        reveal_strlit("Z");
    }
    res
}

} // verus!
