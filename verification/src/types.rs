//! Declared-type mapping and decimal rendering for values that cross
//! the catalog boundary.

use vstd::prelude::*;
use crate::num;
use crate::text;

verus! {

/// The OpenAPI type and format a declared database type maps to.
pub open spec fn spec_sql_type_to_openapi(t: Seq<char>) -> (Seq<char>, Seq<char>) {
    if text::eq_ci(t, "bit"@) {
        ("boolean"@, ""@)
    } else if text::eq_ci(t, "tinyint"@) || text::eq_ci(t, "smallint"@) || text::eq_ci(
        t,
        "int"@,
    ) {
        ("integer"@, "int32"@)
    } else if text::eq_ci(t, "bigint"@) {
        ("integer"@, "int64"@)
    } else if text::eq_ci(t, "float"@) || text::eq_ci(t, "real"@) {
        ("number"@, "double"@)
    } else if text::eq_ci(t, "decimal"@) || text::eq_ci(t, "numeric"@) || text::eq_ci(
        t,
        "money"@,
    ) || text::eq_ci(t, "smallmoney"@) {
        ("number"@, "decimal"@)
    } else if text::eq_ci(t, "date"@) {
        ("string"@, "date"@)
    } else if text::eq_ci(t, "time"@) {
        ("string"@, "time"@)
    } else if text::eq_ci(t, "datetime"@) || text::eq_ci(t, "datetime2"@) || text::eq_ci(
        t,
        "smalldatetime"@,
    ) || text::eq_ci(t, "datetimeoffset"@) {
        ("string"@, "date-time"@)
    } else if text::eq_ci(t, "uniqueidentifier"@) {
        ("string"@, "uuid"@)
    } else if text::eq_ci(t, "binary"@) || text::eq_ci(t, "varbinary"@) || text::eq_ci(
        t,
        "image"@,
    ) {
        ("string"@, "byte"@)
    } else if text::eq_ci(t, "xml"@) {
        ("string"@, "xml"@)
    } else {
        ("string"@, ""@)
    }
}

/// Maps a declared database type name, case-insensitively, to an
/// OpenAPI `(type, format)` pair.
pub fn sql_type_to_openapi(data_type: &str) -> (r: (&'static str, &'static str))
    ensures
        (r.0@, r.1@) == spec_sql_type_to_openapi(data_type@),
{
    if text::eq_ignore_case(data_type, "bit") {
        ("boolean", "")
    } else if text::eq_ignore_case(data_type, "tinyint") || text::eq_ignore_case(
        data_type,
        "smallint",
    ) || text::eq_ignore_case(data_type, "int") {
        ("integer", "int32")
    } else if text::eq_ignore_case(data_type, "bigint") {
        ("integer", "int64")
    } else if text::eq_ignore_case(data_type, "float") || text::eq_ignore_case(data_type, "real") {
        ("number", "double")
    } else if text::eq_ignore_case(data_type, "decimal") || text::eq_ignore_case(
        data_type,
        "numeric",
    ) || text::eq_ignore_case(data_type, "money") || text::eq_ignore_case(
        data_type,
        "smallmoney",
    ) {
        ("number", "decimal")
    } else if text::eq_ignore_case(data_type, "date") {
        ("string", "date")
    } else if text::eq_ignore_case(data_type, "time") {
        ("string", "time")
    } else if text::eq_ignore_case(data_type, "datetime") || text::eq_ignore_case(
        data_type,
        "datetime2",
    ) || text::eq_ignore_case(data_type, "smalldatetime") || text::eq_ignore_case(
        data_type,
        "datetimeoffset",
    ) {
        ("string", "date-time")
    } else if text::eq_ignore_case(data_type, "uniqueidentifier") {
        ("string", "uuid")
    } else if text::eq_ignore_case(data_type, "binary") || text::eq_ignore_case(
        data_type,
        "varbinary",
    ) || text::eq_ignore_case(data_type, "image") {
        ("string", "byte")
    } else if text::eq_ignore_case(data_type, "xml") {
        ("string", "xml")
    } else {
        ("string", "")
    }
}

/// Ten to the `n`.
pub open spec fn pow10(n: int) -> int
    decreases n,
{
    if n <= 0 {
        1
    } else {
        10 * pow10(n - 1)
    }
}

proof fn lemma_pow10_mono(a: int, b: int)
    requires
        0 <= a <= b,
    ensures
        pow10(a) <= pow10(b),
        pow10(a) >= 1,
    decreases b,
{
    if b > 0 {
        if a == b {
            lemma_pow10_mono(a - 1 + 1 - 1, b - 1);
        } else {
            lemma_pow10_mono(a, b - 1);
        }
    }
}

/// A run of `n` zero characters.
pub open spec fn spec_zeros(n: int) -> Seq<char>
    decreases n,
{
    if n <= 0 {
        Seq::empty()
    } else {
        seq!['0'] + spec_zeros(n - 1)
    }
}

/// The decimal text of a scaled integer: the unscaled digits split
/// `scale` places from the right, the fraction zero-padded.
pub open spec fn spec_format_decimal(value: int, scale: int) -> Seq<char> {
    if scale == 0 {
        num::int_rep(value)
    } else {
        let mag = if value < 0 {
            -value
        } else {
            value
        };
        let divisor = pow10(scale);
        let whole = mag / divisor;
        let frac = mag % divisor;
        let sign = if value < 0 {
            "-"@
        } else {
            ""@
        };
        let frac_digits = num::dec_rep(frac);
        sign + num::dec_rep(whole) + "."@ + spec_zeros(scale - frac_digits.len()) + frac_digits
    }
}

/// Renders an unscaled decimal integer with the given scale, as
/// `[-]{whole}.{fraction}` with the fraction zero-padded.
pub fn format_decimal(value: i128, scale: u8) -> (r: String)
    requires
        scale <= 38,
    ensures
        r@ == spec_format_decimal(value as int, scale as int),
{
    if scale == 0 {
        return num::i128_to_string(value);
    }
    let is_negative = value < 0;
    let mag: u128 = if is_negative {
        ((-(value + 1)) as u128) + 1
    } else {
        value as u128
    };
    // 10^scale, bounded by 10^38 which fits
    let mut divisor: u128 = 1;
    let mut k: u8 = 0;
    proof {
        reveal_with_fuel(pow10, 40);
        assert(pow10(38) == 0x4b3b4ca85a86c47a098a224000000000);
    }
    while k < scale
        invariant
            k <= scale <= 38,
            divisor as int == pow10(k as int),
        decreases scale - k,
    {
        proof {
            lemma_pow10_mono(k as int + 1, 38);
            reveal_with_fuel(pow10, 40);
            assert(pow10(38) == 0x4b3b4ca85a86c47a098a224000000000);
        }
        divisor = divisor * 10;
        k += 1;
    }
    let whole = mag / divisor;
    let frac = mag % divisor;
    let whole_str = num::u128_to_string(whole);
    let frac_str = num::u128_to_string(frac);
    let mut out = String::new();
    if is_negative {
        out.append("-");
    }
    out.append(whole_str.as_str());
    out.append(".");
    let frac_len = frac_str.as_str().unicode_len();
    let ghost target_zeros = scale as int - num::dec_rep(frac as int).len();
    let mut z: usize = 0;
    let pad: usize = if frac_len < scale as usize {
        scale as usize - frac_len
    } else {
        0
    };
    let ghost mid = out@;
    proof {
        assert(out@ =~= mid + spec_zeros(0));
    }
    while z < pad
        invariant
            mid == out@.subrange(0, mid.len() as int),
            out@.len() == mid.len() + z,
            z <= pad,
            out@ == mid + spec_zeros(z as int),
        decreases pad - z,
    {
        let ghost prev = out@;
        out.append("0");
        proof {
            reveal_strlit("0");
            lemma_zeros_snoc(z as int + 1);
            assert(out@ =~= mid + spec_zeros(z + 1));
        }
        z += 1;
    }
    out.append(frac_str.as_str());
    proof {
        let v = value as int;
        let smag: int = if v < 0 {
            -v
        } else {
            v
        };
        assert(mag as int == smag);
        assert(divisor as int == pow10(scale as int));
        lemma_pow10_mono(0, scale as int);
        assert(whole as int == smag / pow10(scale as int));
        assert(frac as int == smag % pow10(scale as int));
        assert(whole_str@ == num::dec_rep(whole as int));
        assert(frac_str@ == num::dec_rep(frac as int));
        reveal_strlit("");
        reveal_strlit("-");
        reveal_strlit(".");
        assert(mid =~= (if v < 0 {
            "-"@
        } else {
            ""@
        }) + num::dec_rep(whole as int) + "."@);
        assert(pad as int == target_zeros || (frac_len >= scale as int && target_zeros <= 0)) by {
            assert(frac_str@.len() == num::dec_rep(frac as int).len());
        }
        assert(spec_zeros(pad as int) == spec_zeros(target_zeros)) by {
            if target_zeros <= 0 {
                assert(pad == 0);
            }
        }
        assert(out@ == mid + spec_zeros(pad as int) + frac_str@);
        assert(out@ =~= spec_format_decimal(value as int, scale as int));
    }
    out
}

/// A run of zeros grows by one zero at its end.
pub proof fn lemma_zeros_snoc(n: int)
    requires
        n >= 1,
    ensures
        spec_zeros(n) == spec_zeros(n - 1) + seq!['0'],
    decreases n,
{
    if n == 1 {
        assert(spec_zeros(1) =~= spec_zeros(0) + seq!['0']);
    } else {
        lemma_zeros_snoc(n - 1);
        assert(spec_zeros(n) =~= spec_zeros(n - 1) + seq!['0']);
    }
}

/// The calendar text of a day count from the year-one epoch: a
/// function of the count alone.
pub uninterp spec fn date_text(days: int) -> Seq<char>;

/// Relies on chrono's NaiveDate (from_ymd_opt, checked addition,
/// format "%Y-%m-%d"): the date `days` after 0001-01-01.
#[verifier::external_body]
pub fn render_date(days: i64) -> (r: String)
    requires
        0 <= days < 3650000,
    ensures
        r@ == date_text(days as int),
{
    let base = chrono::NaiveDate::from_ymd_opt(1, 1, 1).unwrap();
    let date = base + chrono::Duration::days(days);
    date.format("%Y-%m-%d").to_string()
}

/// The timestamp text of a day count from the 1900 epoch and a
/// millisecond count into the day: a function of the two alone.
pub uninterp spec fn datetime_text(days: int, ms: int) -> Seq<char>;

/// Relies on chrono's NaiveDate/NaiveTime/NaiveDateTime (formatting
/// "%Y-%m-%dT%H:%M:%S%.3f" with a trailing Z): the timestamp `days`
/// after 1900-01-01 at `ms` milliseconds into the day.
#[verifier::external_body]
pub fn render_datetime(days: i64, ms: i64) -> (r: String)
    requires
        0 <= days < 3650000,
        0 <= ms < 86400000,
    ensures
        r@ == datetime_text(days as int, ms as int),
{
    let base = chrono::NaiveDate::from_ymd_opt(1900, 1, 1).unwrap();
    let date = base + chrono::Duration::days(days);
    let time = chrono::NaiveTime::from_num_seconds_from_midnight_opt(
        (ms / 1000) as u32,
        ((ms % 1000) * 1_000_000) as u32,
    )
    .unwrap_or_default();
    let ndt = chrono::NaiveDateTime::new(date, time);
    let mut out = ndt.format("%Y-%m-%dT%H:%M:%S%.3f").to_string();
    out.push('Z');
    out
}

/// The timestamp text of a day count from the 1900 epoch and a minute
/// count into the day: a function of the two alone.
pub uninterp spec fn smalldatetime_text(days: int, minutes: int) -> Seq<char>;

/// Relies on chrono (formatting "%Y-%m-%dT%H:%M:%S"): the timestamp
/// `days` after 1900-01-01 at `minutes` into the day.
#[verifier::external_body]
pub fn render_smalldatetime(days: i64, minutes: i64) -> (r: String)
    requires
        0 <= days < 3650000,
        0 <= minutes < 1440,
    ensures
        r@ == smalldatetime_text(days as int, minutes as int),
{
    let base = chrono::NaiveDate::from_ymd_opt(1900, 1, 1).unwrap();
    let date = base + chrono::Duration::days(days);
    let time = chrono::NaiveTime::from_num_seconds_from_midnight_opt((minutes * 60) as u32, 0)
        .unwrap_or_default();
    let ndt = chrono::NaiveDateTime::new(date, time);
    ndt.format("%Y-%m-%dT%H:%M:%S").to_string()
}

/// The clock text of a nanosecond count into the day: a function of
/// the count alone.
pub uninterp spec fn time_text(nanos: int) -> Seq<char>;

/// Relies on chrono's NaiveTime (formatting "%H:%M:%S%.f"): the clock
/// reading `nanos` nanoseconds into the day.
#[verifier::external_body]
pub fn render_time(nanos: i64) -> (r: String)
    requires
        0 <= nanos < 86400000000000,
    ensures
        r@ == time_text(nanos as int),
{
    let time = chrono::NaiveTime::from_num_seconds_from_midnight_opt(
        (nanos / 1_000_000_000) as u32,
        (nanos % 1_000_000_000) as u32,
    )
    .unwrap_or_default();
    time.format("%H:%M:%S%.f").to_string()
}

/// The timestamp text of a day count from the year-one epoch and a
/// nanosecond count into the day: a function of the two alone.
pub uninterp spec fn datetime2_text(days: int, nanos: int) -> Seq<char>;

/// Relies on chrono (formatting "%Y-%m-%dT%H:%M:%S%.3f" with a
/// trailing Z): the timestamp `days` after 0001-01-01 at `nanos`
/// nanoseconds into the day.
#[verifier::external_body]
pub fn render_datetime2(days: i64, nanos: i64) -> (r: String)
    requires
        0 <= days < 3650000,
        0 <= nanos < 86400000000000,
    ensures
        r@ == datetime2_text(days as int, nanos as int),
{
    let base = chrono::NaiveDate::from_ymd_opt(1, 1, 1).unwrap();
    let date = base + chrono::Duration::days(days);
    let time = chrono::NaiveTime::from_num_seconds_from_midnight_opt(
        (nanos / 1_000_000_000) as u32,
        (nanos % 1_000_000_000) as u32,
    )
    .unwrap_or_default();
    let ndt = chrono::NaiveDateTime::new(date, time);
    let mut out = ndt.format("%Y-%m-%dT%H:%M:%S%.3f").to_string();
    out.push('Z');
    out
}

/// The zone suffix of a timestamp with an offset: `Z` at zero, else a
/// sign and the offset as `hh:mm`.
pub open spec fn spec_offset_suffix(offset_mins: int) -> Seq<char> {
    if offset_mins == 0 {
        "Z"@
    } else {
        let mag = if offset_mins < 0 {
            -offset_mins
        } else {
            offset_mins
        };
        (if offset_mins < 0 {
            "-"@
        } else {
            "+"@
        }) + spec_zeros(2 - num::dec_rep(mag / 60).len()) + num::dec_rep(mag / 60) + ":"@
            + spec_zeros(2 - num::dec_rep(mag % 60).len()) + num::dec_rep(mag % 60)
    }
}

/// Renders the zone suffix of an offset timestamp.
pub fn offset_suffix(offset_mins: i16) -> (r: String)
    ensures
        r@ == spec_offset_suffix(offset_mins as int),
{
    if offset_mins == 0 {
        return "Z".to_owned();
    }
    let mag: i64 = if offset_mins < 0 {
        -(offset_mins as i64)
    } else {
        offset_mins as i64
    };
    let hours = mag / 60;
    let mins = mag % 60;
    let mut out: String = if offset_mins < 0 {
        "-".to_owned()
    } else {
        "+".to_owned()
    };
    let hs = num::u64_to_string(hours as u64);
    if hs.as_str().unicode_len() < 2 {
        out.append("0");
        proof {
            reveal_strlit("0");
            assert(num::dec_rep(hours as int).len() >= 1);
            assert(num::dec_rep(hours as int).len() == 1);
            assert(spec_zeros(0) =~= Seq::<char>::empty());
            assert(spec_zeros(1) =~= seq!['0']);
        }
    } else {
        proof {
            assert(spec_zeros(2 - num::dec_rep(hours as int).len()) =~= Seq::<char>::empty());
        }
    }
    out.append(hs.as_str());
    out.append(":");
    let ms = num::u64_to_string(mins as u64);
    if ms.as_str().unicode_len() < 2 {
        out.append("0");
        proof {
            reveal_strlit("0");
            assert(num::dec_rep(mins as int).len() >= 1);
            assert(num::dec_rep(mins as int).len() == 1);
            assert(spec_zeros(0) =~= Seq::<char>::empty());
            assert(spec_zeros(1) =~= seq!['0']);
        }
    } else {
        proof {
            assert(spec_zeros(2 - num::dec_rep(mins as int).len()) =~= Seq::<char>::empty());
        }
    }
    out.append(ms.as_str());
    proof {
        assert(out@ =~= spec_offset_suffix(offset_mins as int));
    }
    out
}

} // verus!
