//! UTC `YYYYMMDD-HHMMSS` stamps from seconds since the Unix epoch (civil date
//! from days-since-epoch, no date library).

use vstd::prelude::*;
use crate::text::{
    all_digits, chars_of, digits_value, extend_chars, lemma_decimal_digits, spec_decimal,
    string_from_chars, u64_to_decimal, zero_pad,
};

verus! {

/// Civil (proleptic Gregorian) date `(year, month, day)` of the day `days`
/// after 1970-01-01, by eras of 400 years counted from 0000-03-01.
pub open spec fn civil_from_days(days: int) -> (int, int, int) {
    let z = days + 719468;
    let era = z / 146097;
    let doe = z - era * 146097;
    let yoe = (doe - doe / 1460 + doe / 36524 - doe / 146096) / 365;
    let doy = doe - (365 * yoe + yoe / 4 - yoe / 100);
    let mp = (5 * doy + 2) / 153;
    let d = doy - (153 * mp + 2) / 5 + 1;
    let m = if mp < 10 {
        mp + 3
    } else {
        mp - 9
    };
    let y = yoe + era * 400 + if m <= 2 {
        1int
    } else {
        0int
    };
    (y, m, d)
}

/// Day number (days after 1970-01-01) of the civil date `y-m-d`.
pub open spec fn days_from_civil(y: int, m: int, d: int) -> int {
    let y2 = if m <= 2 {
        y - 1
    } else {
        y
    };
    let era = y2 / 400;
    let yoe = y2 - era * 400;
    let doy = (153 * (if m > 2 {
        m - 3
    } else {
        m + 9
    }) + 2) / 5 + d - 1;
    let doe = yoe * 365 + yoe / 4 - yoe / 100 + doy;
    era * 146097 + doe - 719468
}

/// Two decimal digits (more when the value needs them).
pub open spec fn two(n: int) -> Seq<char> {
    zero_pad(spec_decimal(n as nat), 2)
}

/// `YYYYMMDD-HHMMSS` for `secs` seconds after the epoch, in UTC.
pub open spec fn spec_utc_stamp(secs: nat) -> Seq<char> {
    let days = secs / 86400;
    let tod = secs % 86400;
    let (y, m, d) = civil_from_days(days as int);
    zero_pad(spec_decimal(y as nat), 4) + two(m) + two(d) + seq!['-'] + two((tod / 3600) as int) + two(
        ((tod % 3600) / 60) as int,
    ) + two((tod % 60) as int)
}

/// Within one 400-year era: the year of the era, the day of the (March-based)
/// year, the month index and the day of the month stay in their ranges.
proof fn lemma_era_ranges(doe: int)
    requires
        0 <= doe < 146097,
    ensures
        ({
            let yoe = (doe - doe / 1460 + doe / 36524 - doe / 146096) / 365;
            let doy = doe - (365 * yoe + yoe / 4 - yoe / 100);
            let mp = (5 * doy + 2) / 153;
            let d = doy - (153 * mp + 2) / 5 + 1;
            &&& 0 <= yoe < 400
            &&& 0 <= doy <= 365
            &&& 0 <= mp <= 11
            &&& 1 <= d <= 31
        }),
{
}

/// The last day of a March-based year of the era (day 365) only exists when
/// the February it ends is a leap February.
proof fn lemma_era_leap_day(doe: int)
    requires
        0 <= doe < 146097,
    ensures
        ({
            let yoe = (doe - doe / 1460 + doe / 36524 - doe / 146096) / 365;
            let doy = doe - (365 * yoe + yoe / 4 - yoe / 100);
            doy == 365 ==> (yoe + 1) % 4 == 0 && ((yoe + 1) % 100 != 0 || yoe == 399)
        }),
{
}

/// The stamp's month is 1..=12 and its day 1..=31.
pub proof fn lemma_civil_date_in_range(days: nat)
    ensures
        1 <= civil_from_days(days as int).1 <= 12,
        1 <= civil_from_days(days as int).2 <= 31,
{
    let z = days + 719468;
    let era = z / 146097;
    let doe = z - era * 146097;
    assert(0 <= doe < 146097);
    lemma_era_ranges(doe);
}

/// Gregorian leap years: divisible by 4, except centuries not divisible by
/// 400.
pub open spec fn is_leap_year(y: int) -> bool {
    (y % 4 == 0 && y % 100 != 0) || y % 400 == 0
}

/// Days in month `m` of year `y`: 30 in April, June, September and November,
/// 29 or 28 in February as the year is leap or not, 31 otherwise.
pub open spec fn days_in_month(y: int, m: int) -> int {
    if m == 2 {
        if is_leap_year(y) {
            29
        } else {
            28
        }
    } else if m == 4 || m == 6 || m == 9 || m == 11 {
        30
    } else {
        31
    }
}

/// The stamp's date exists: its day is a day of its month in its year (no
/// April 31, no February 29 outside leap years).
pub proof fn lemma_civil_day_exists(days: nat)
    ensures
        ({
            let (y, m, d) = civil_from_days(days as int);
            1 <= d <= days_in_month(y, m)
        }),
{
    let z = days + 719468;
    let era = z / 146097;
    let doe = z - era * 146097;
    assert(0 <= doe < 146097);
    lemma_era_ranges(doe);
    lemma_era_leap_day(doe);
    let yoe = (doe - doe / 1460 + doe / 36524 - doe / 146096) / 365;
    let doy = doe - (365 * yoe + yoe / 4 - yoe / 100);
    let mp = (5 * doy + 2) / 153;
    assert(153 * mp <= 5 * doy + 2 < 153 * (mp + 1));
    let (y, m, d) = civil_from_days(days as int);
    assert(d == doy - (153 * mp + 2) / 5 + 1);
    if mp == 11 {
        assert(y == yoe + era * 400 + 1);
        if doy == 365 {
            assert(is_leap_year(y));
        }
    }
}

/// A run of `0`s is worth 0.
proof fn lemma_zeros_value(k: nat)
    ensures
        digits_value(Seq::new(k, |i: int| '0')) == 0,
    decreases k,
{
    if k > 0 {
        lemma_zeros_value((k - 1) as nat);
        assert(Seq::new(k, |i: int| '0').drop_last() =~= Seq::new((k - 1) as nat, |i: int| '0'));
    }
}

/// Leading zeros do not change a number's value.
proof fn lemma_zero_prefix_value(k: nat, d: Seq<char>)
    ensures
        digits_value(Seq::new(k, |i: int| '0') + d) == digits_value(d),
    decreases d.len(),
{
    let z = Seq::new(k, |i: int| '0');
    if d.len() == 0 {
        assert(z + d =~= z);
        lemma_zeros_value(k);
    } else {
        lemma_zero_prefix_value(k, d.drop_last());
        assert((z + d).drop_last() =~= z + d.drop_last());
    }
}

/// `n` written with at least `w` digits is worth `n`, and is exactly `w`
/// digits long when `n` has at most `w` digits (`n < 10` for one digit,
/// `n < 100` for two, `n < 10000` for four).
proof fn lemma_padded_value(n: nat, w: nat)
    requires
        1 <= w,
        w == 1 ==> n < 10,
        w == 2 ==> n < 100,
        w == 4 ==> n < 10000,
        w == 1 || w == 2 || w == 4,
    ensures
        zero_pad(spec_decimal(n), w).len() == w,
        digits_value(zero_pad(spec_decimal(n), w)) == n,
        all_digits(zero_pad(spec_decimal(n), w)),
{
    lemma_decimal_digits(n);
    let d = spec_decimal(n);
    if n >= 10 {
        if n >= 100 {
            if n >= 1000 {
                assert(spec_decimal(n / 1000).len() == 1);
            }
            assert(spec_decimal(n / 100).len() <= 2);
        }
        assert(spec_decimal(n / 10).len() <= w - 1);
    }
    assert(d.len() <= w);
    if d.len() < w {
        let k = (w - d.len()) as nat;
        lemma_zero_prefix_value(k, d);
        let p = zero_pad(d, w);
        assert forall|i: int| 0 <= i < p.len() implies crate::text::is_digit(#[trigger] p[i]) by {
            if i >= k {
                assert(p[i] == d[i - k]);
            }
        }
    }
}

/// The stamp reads back as the time it was made from: for a four-digit year,
/// its fields `YYYY`, `MM`, `DD` (before the `-`) and `HH`, `MM`, `SS` (after
/// it) name the day `days_from_civil(YYYY, MM, DD)` and the second
/// `HH*3600 + MM*60 + SS` of it, which together are `secs`; the time fields
/// stay below 24, 60 and 60.
pub proof fn lemma_stamp_reads_back(secs: nat)
    requires
        civil_from_days((secs / 86400) as int).0 <= 9999,
    ensures
        ({
            let st = spec_utc_stamp(secs);
            let y = digits_value(st.subrange(0, 4));
            let mo = digits_value(st.subrange(4, 6));
            let d = digits_value(st.subrange(6, 8));
            let hh = digits_value(st.subrange(9, 11));
            let mi = digits_value(st.subrange(11, 13));
            let ss = digits_value(st.subrange(13, 15));
            &&& st.len() == 15
            &&& st[8] == '-'
            &&& hh < 24 && mi < 60 && ss < 60
            &&& days_from_civil(y as int, mo as int, d as int) * 86400 + hh * 3600 + mi * 60 + ss
                == secs
        }),
{
    let days = secs / 86400;
    let tod = secs % 86400;
    let (y, m, d) = civil_from_days(days as int);
    lemma_civil_date_in_range(days);
    lemma_civil_round_trip(days);
    let z = days + 719468;
    let era = z / 146097;
    let doe = z - era * 146097;
    lemma_era_ranges(doe);
    assert(y >= 0);
    let fy = zero_pad(spec_decimal(y as nat), 4);
    let fm = two(m);
    let fd = two(d);
    let fh = two((tod / 3600) as int);
    let fi = two(((tod % 3600) / 60) as int);
    let fs = two((tod % 60) as int);
    lemma_padded_value(y as nat, 4);
    lemma_padded_value(m as nat, 2);
    lemma_padded_value(d as nat, 2);
    lemma_padded_value(tod / 3600, 2);
    lemma_padded_value((tod % 3600) / 60, 2);
    lemma_padded_value(tod % 60, 2);
    let st = spec_utc_stamp(secs);
    assert(st == fy + fm + fd + seq!['-'] + fh + fi + fs);
    assert(st.subrange(0, 4) =~= fy);
    assert(st.subrange(4, 6) =~= fm);
    assert(st.subrange(6, 8) =~= fd);
    assert(st.subrange(9, 11) =~= fh);
    assert(st.subrange(11, 13) =~= fi);
    assert(st.subrange(13, 15) =~= fs);
    assert(st[8] == '-');
    assert((tod / 3600) * 3600 + ((tod % 3600) / 60) * 60 + tod % 60 == tod);
}

/// The stamp names the right day: converting its date back to a day number
/// gives the day it was made from.
pub proof fn lemma_civil_round_trip(days: nat)
    ensures
        ({
            let (y, m, d) = civil_from_days(days as int);
            days_from_civil(y, m, d) == days
        }),
{
    let z = days + 719468;
    let era = z / 146097;
    let doe = z - era * 146097;
    assert(0 <= doe < 146097);
    lemma_era_ranges(doe);
    let yoe = (doe - doe / 1460 + doe / 36524 - doe / 146096) / 365;
    let (y, m, d) = civil_from_days(days as int);
    let y2 = if m <= 2 {
        y - 1
    } else {
        y
    };
    assert(y2 == yoe + era * 400);
    assert(y2 / 400 == era);
}

fn push_padded(out: &mut Vec<char>, n: u64, width: usize)
    ensures
        final(out)@ == old(out)@ + zero_pad(spec_decimal(n as nat), width as nat),
{
    let s = u64_to_decimal(n);
    let ds = chars_of(s.as_str());
    let ghost d = ds@;
    let mut k: usize = ds.len();
    let ghost o = out@;
    while k < width
        invariant
            ds@.len() <= k <= width || (k == ds@.len() && k >= width),
            out@ == o + Seq::new((k - ds@.len()) as nat, |i: int| '0'),
        decreases width - k,
    {
        out.push('0');
        k += 1;
        assert(out@ =~= o + Seq::new((k - ds@.len()) as nat, |i: int| '0'));
    }
    extend_chars(out, ds.as_slice());
    proof {
        if ds@.len() >= width {
            assert(out@ =~= o + d);
        } else {
            assert(out@ =~= o + (Seq::new((width - d.len()) as nat, |i: int| '0') + d));
        }
    }
}

/// UTC `YYYYMMDD-HHMMSS` for `secs` seconds after the Unix epoch.
pub fn utc_stamp(secs: u64) -> (r: String)
    ensures
        r@ == spec_utc_stamp(secs as nat),
{
    let days = secs / 86400;
    let tod = secs % 86400;
    let (hh, mm, ss) = (tod / 3600, (tod % 3600) / 60, tod % 60);
    let z = days + 719468;
    let era = z / 146097;
    let doe = z - era * 146097;
    let yoe = (doe - doe / 1460 + doe / 36524 - doe / 146096) / 365;
    assert(doe < 146097) by (nonlinear_arith)
        requires
            era == z / 146097,
            doe == z - era * 146097,
    ;
    proof {
        lemma_era_ranges(doe as int);
    }
    let doy = doe - (365 * yoe + yoe / 4 - yoe / 100);
    let mp = (5 * doy + 2) / 153;
    let d = doy - (153 * mp + 2) / 5 + 1;
    let m = if mp < 10 {
        mp + 3
    } else {
        mp - 9
    };
    let y = yoe + era * 400 + if m <= 2 {
        1
    } else {
        0
    };
    assert(civil_from_days(days as int) == (y as int, m as int, d as int));
    let mut out: Vec<char> = Vec::new();
    push_padded(&mut out, y, 4);
    push_padded(&mut out, m, 2);
    push_padded(&mut out, d, 2);
    out.push('-');
    push_padded(&mut out, hh, 2);
    push_padded(&mut out, mm, 2);
    push_padded(&mut out, ss, 2);
    assert(out@ =~= spec_utc_stamp(secs as nat));
    string_from_chars(out.as_slice())
}

} // verus!
