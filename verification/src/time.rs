//! Instants in time and their RFC 3339 text.
use vstd::prelude::*;

use crate::error::ThermalError;
use crate::text::{is_first_index, lacks, owned, split_once_char};

verus! {

/// Earliest epoch second this library represents (a year near -251,000).
pub const MIN_EPOCH_SECS: i64 = -8_000_000_000_000;

/// Latest epoch second this library represents (a year near 255,000).
pub const MAX_EPOCH_SECS: i64 = 8_000_000_000_000;

/// Parts of an instant that `chrono` can represent: seconds since the Unix epoch within
/// range, a sub-second part below one second (or below two seconds during a leap second,
/// which ends a minute), and a UTC offset of less than a day.
pub open spec fn valid_parts(secs: i64, nanos: u32, offset: i32) -> bool {
    &&& MIN_EPOCH_SECS <= secs <= MAX_EPOCH_SECS
    &&& (nanos < 1_000_000_000 || (nanos < 2_000_000_000 && secs % 60 == 59))
    &&& -86_400 < offset < 86_400
}

/// An instant with the UTC offset it was written in.
#[derive(Debug, Clone, Copy, PartialEq, Eq)]
pub struct Timestamp {
    /// Seconds since 1970-01-01T00:00:00Z.
    pub secs: i64,
    /// Nanoseconds after `secs`.
    pub nanos: u32,
    /// Offset of local time from UTC, in seconds.
    pub offset: i32,
}

impl Timestamp {
    pub open spec fn wf(self) -> bool {
        valid_parts(self.secs, self.nanos, self.offset)
    }

    /// The instant in nanoseconds since the epoch.
    pub open spec fn instant(self) -> int {
        self.secs * 1_000_000_000 + self.nanos
    }

    /// Seconds since the epoch (UTC), ignoring the sub-second part.
    pub fn timestamp(&self) -> (r: i64)
        ensures
            r == self.secs,
    {
        self.secs
    }

    /// Microseconds after the whole second.
    pub fn timestamp_subsec_micros(&self) -> (r: u32)
        ensures
            r == self.nanos / 1000,
    {
        self.nanos / 1000
    }

    /// RFC 3339 text of the instant in its own offset.
    pub fn to_rfc3339(&self) -> (r: String)
        requires
            self.wf(),
        ensures
            r@ == rfc3339_text(self.secs, self.nanos, self.offset),
    {
        format_rfc3339(self.secs, self.nanos, self.offset)
    }
}

/// `a` is not later than `b` (instants compared, offsets ignored; a leap second's
/// sub-second part runs on past one second, so whole seconds are compared first).
pub open spec fn not_after(a: Timestamp, b: Timestamp) -> bool {
    a.secs < b.secs || (a.secs == b.secs && a.nanos <= b.nanos)
}

/// Whole seconds from `a` to `b`, the remainder truncated toward zero.
pub open spec fn seconds_between(a: Timestamp, b: Timestamp) -> int {
    let d = b.instant() - a.instant();
    if d >= 0 {
        d / 1_000_000_000
    } else {
        -((-d) / 1_000_000_000)
    }
}

/// Whole seconds from `a` to `b`, truncated toward zero.
pub fn seconds_between_exec(a: &Timestamp, b: &Timestamp) -> (r: i64)
    requires
        a.wf(),
        b.wf(),
    ensures
        r == seconds_between(*a, *b),
{
    let d: i128 = (b.secs as i128 - a.secs as i128) * 1_000_000_000 + (b.nanos as i128
        - a.nanos as i128);
    let q: i128 = if d >= 0 {
        d / 1_000_000_000
    } else {
        -((-d) / 1_000_000_000)
    };
    assert(d == b.instant() - a.instant());
    q as i64
}

/// The instant `epoch` seconds after the Unix epoch, written in UTC.
pub fn epoch_to_dt(epoch: i64) -> (r: Timestamp)
    requires
        MIN_EPOCH_SECS <= epoch <= MAX_EPOCH_SECS,
    ensures
        r == (Timestamp { secs: epoch, nanos: 0, offset: 0 }),
        r.wf(),
{
    Timestamp { secs: epoch, nanos: 0, offset: 0 }
}

/// What `chrono::DateTime::parse_from_rfc3339` reads from a string: epoch seconds,
/// sub-second nanoseconds and UTC offset, or `None` where it reports an error.
pub uninterp spec fn rfc3339_parse(s: Seq<char>) -> Option<(i64, u32, i32)>;

/// What `chrono::DateTime::to_rfc3339` writes for an instant in a fixed offset.
pub uninterp spec fn rfc3339_text(secs: i64, nanos: u32, offset: i32) -> Seq<char>;

/// Calls `chrono::DateTime::parse_from_rfc3339`. Claimed: it succeeds exactly where the
/// named result is `Some`, gives those parts, and the parts are ones `chrono` represents
/// (RFC 3339 has four-digit years, and `FixedOffset` stays within a day). What it accepts
/// is left to the name.
#[verifier::external_body]
pub(crate) fn parse_rfc3339(s: &str) -> (r: Result<(i64, u32, i32), chrono::ParseError>)
    ensures
        r is Ok <==> rfc3339_parse(s@) is Some,
        r matches Ok(v) ==> rfc3339_parse(s@) == Some(v) && valid_parts(v.0, v.1, v.2),
{
    chrono::DateTime::parse_from_rfc3339(s).map(
        |dt| (dt.timestamp(), dt.timestamp_subsec_nanos(), dt.offset().local_minus_utc()),
    )
}

/// Calls `chrono::DateTime::to_rfc3339` on the instant built from its parts. Claimed: the
/// text is the named result for those parts. The parts are in range, so building the
/// instant (`from_timestamp`, `FixedOffset::east_opt`) does not fail.
#[verifier::external_body]
fn format_rfc3339(secs: i64, nanos: u32, offset: i32) -> (r: String)
    requires
        valid_parts(secs, nanos, offset),
    ensures
        r@ == rfc3339_text(secs, nanos, offset),
{
    let utc = chrono::DateTime::from_timestamp(secs, nanos).unwrap();
    utc.with_timezone(&chrono::FixedOffset::east_opt(offset).unwrap()).to_rfc3339()
}

/// What `chrono::NaiveDateTime::parse_from_str` reads from `s` in the strftime format
/// `fmt`, taken as UTC: epoch seconds and sub-second nanoseconds, or `None` where it reports
/// an error.
pub uninterp spec fn naive_utc_parse(s: Seq<char>, fmt: Seq<char>) -> Option<(i64, u32)>;

/// Calls `chrono::NaiveDateTime::parse_from_str` and reads the result as UTC
/// (`and_utc`, then `timestamp` and `timestamp_subsec_nanos`). Claimed: the result is the
/// named one for the text and the format. What the format accepts is left to the name.
#[verifier::external_body]
pub(crate) fn parse_naive_utc(s: &str, fmt: &str) -> (r: Option<(i64, u32)>)
    ensures
        r == naive_utc_parse(s@, fmt@),
{
    match chrono::NaiveDateTime::parse_from_str(s, fmt) {
        Ok(dt) => Some((dt.and_utc().timestamp(), dt.and_utc().timestamp_subsec_nanos())),
        Err(_) => None,
    }
}

/// The UTC instant of naive parts read by `naive_utc_parse`.
pub open spec fn utc_ts(v: (i64, u32)) -> Timestamp {
    Timestamp { secs: v.0, nanos: v.1, offset: 0 }
}

/// The instant an hourly weather time (`2026-01-15T10:00`, no offset) names, read as UTC.
pub open spec fn hourly_time_of(t: Seq<char>) -> Option<Timestamp> {
    match naive_utc_parse(t, "%Y-%m-%dT%H:%M"@) {
        Some(v) => Some(utc_ts(v)),
        None => None,
    }
}

/// Reads an hourly weather time (`%Y-%m-%dT%H:%M`, no offset) as a UTC instant; `None`
/// where it does not read.
pub fn hourly_time(t: &str) -> (r: Option<Timestamp>)
    ensures
        r == hourly_time_of(t@),
{
    match parse_naive_utc(t, "%Y-%m-%dT%H:%M") {
        Some(v) => Some(Timestamp { secs: v.0, nanos: v.1, offset: 0 }),
        None => None,
    }
}

pub open spec fn is_sign(c: char) -> bool {
    c == '+' || c == '-'
}

/// `i` is the last position of a `+` or `-` in `s`.
pub open spec fn is_last_sign(s: Seq<char>, i: int) -> bool {
    0 <= i < s.len() && is_sign(s[i]) && forall|j: int| i < j < s.len() ==> !is_sign(s[j])
}

proof fn lemma_first_index_unique(s: Seq<char>, c: char, i: int, j: int)
    requires
        is_first_index(s, c, i),
        is_first_index(s, c, j),
    ensures
        i == j,
{
    if i < j {
        assert(s[i] != c);
    } else if j < i {
        assert(s[j] != c);
    }
}

proof fn lemma_last_sign_unique(s: Seq<char>, i: int, j: int)
    requires
        is_last_sign(s, i),
        is_last_sign(s, j),
    ensures
        i == j,
{
    if i < j {
        assert(!is_sign(s[j]));
    } else if j < i {
        assert(!is_sign(s[i]));
    }
}

/// PostgreSQL `timestamptz` text (`2026-01-15 10:30:00+00`) rewritten as RFC 3339: the date
/// up to the first space, `T`, the time up to the last sign, then the offset, with `:00`
/// added where the offset is three bytes long (`+00`). `None` where there is no space, no
/// sign after it, or the sign comes first.
pub open spec fn normalized_timestamptz(s: Seq<char>) -> Option<Seq<char>> {
    if lacks(s, ' ') {
        None
    } else {
        let i = choose|i: int| is_first_index(s, ' ', i);
        let date = s.take(i);
        let rest = s.skip(i + 1);
        if !(exists|k: int| is_last_sign(rest, k)) {
            None
        } else {
            let k = choose|k: int| is_last_sign(rest, k);
            if k == 0 {
                None
            } else {
                let time = rest.take(k);
                let off = rest.skip(k);
                let off2 = if vstd::utf8::encode_utf8(off).len() == 3 {
                    off + ":00"@
                } else {
                    off
                };
                Some(date + "T"@ + time + off2)
            }
        }
    }
}

/// Position of the last `+` or `-` in `s`.
fn rfind_sign(s: &str) -> (r: Option<usize>)
    ensures
        r matches Some(k) ==> is_last_sign(s@, k as int),
        r is None ==> forall|j: int| 0 <= j < s@.len() ==> !is_sign(s@[j]),
{
    let n = s.unicode_len();
    let mut i: usize = n;
    while i > 0
        invariant
            n == s@.len(),
            i <= n,
            forall|j: int| i <= j < n ==> !is_sign(s@[j]),
        decreases i,
    {
        let c = s.get_char(i - 1);
        if c == '+' || c == '-' {
            return Some(i - 1);
        }
        i = i - 1;
    }
    None
}

/// Rewrites PostgreSQL `timestamptz` text into RFC 3339 form.
pub fn normalize_pg_timestamptz(s: &str) -> (r: Option<String>)
    ensures
        r is Some <==> normalized_timestamptz(s@) is Some,
        r matches Some(t) ==> t@ == normalized_timestamptz(s@).unwrap(),
{
    let (date, time_and_offset) = split_once_char(s, ' ')?;
    let ghost i = choose|i: int| is_first_index(s@, ' ', i);
    proof {
        let w = choose|w: int|
            #![trigger s@[w]]
            is_first_index(s@, ' ', w) && date@ == s@.take(w) && time_and_offset@ == s@.skip(w + 1);
        lemma_first_index_unique(s@, ' ', i, w);
    }
    let offset_idx = match rfind_sign(time_and_offset) {
        Some(k) => k,
        None => {
            assert(!(exists|k: int| is_last_sign(time_and_offset@, k)));
            return None;
        },
    };
    proof {
        let k = choose|k: int| is_last_sign(time_and_offset@, k);
        lemma_last_sign_unique(time_and_offset@, k, offset_idx as int);
    }
    if offset_idx == 0 {
        return None;
    }
    let n = time_and_offset.unicode_len();
    let time = time_and_offset.substring_char(0, offset_idx);
    let offset = time_and_offset.substring_char(offset_idx, n);
    assert(time@ =~= time_and_offset@.take(offset_idx as int));
    assert(offset@ =~= time_and_offset@.skip(offset_idx as int));
    let mut out = owned(date);
    out.append("T");
    out.append(time);
    out.append(offset);
    let ghost off2 = if vstd::utf8::encode_utf8(offset@).len() == 3 {
        offset@ + ":00"@
    } else {
        offset@
    };
    assert(out@ =~= date@ + "T"@ + time@ + offset@);
    let blen = offset.as_bytes().len();
    assert(blen == vstd::utf8::encode_utf8(offset@).len());
    if blen == 3 {
        out.append(":00");
    }
    assert(out@ =~= date@ + "T"@ + time@ + off2);
    Some(out)
}

/// What `parse_dt` reads from `s`: RFC 3339 first, then the PostgreSQL form rewritten.
pub open spec fn parsed_dt(s: Seq<char>) -> Option<(i64, u32, i32)> {
    if rfc3339_parse(s) is Some {
        rfc3339_parse(s)
    } else if normalized_timestamptz(s) is Some {
        rfc3339_parse(normalized_timestamptz(s).unwrap())
    } else {
        None
    }
}

/// The timestamp with the given parts.
pub open spec fn ts_of(v: (i64, u32, i32)) -> Timestamp {
    Timestamp { secs: v.0, nanos: v.1, offset: v.2 }
}

/// Parses RFC 3339 text, or PostgreSQL `timestamptz` text, into a timestamp.
pub fn parse_dt(s: &str) -> (r: Result<Timestamp, ThermalError>)
    ensures
        r is Ok <==> parsed_dt(s@) is Some,
        r matches Ok(t) ==> Some((t.secs, t.nanos, t.offset)) == parsed_dt(s@) && t.wf(),
        r matches Err(e) ==> e matches ThermalError::DateTimeParse { value, .. } && value@ == s@,
{
    match parse_rfc3339(s) {
        Ok(v) => Ok(Timestamp { secs: v.0, nanos: v.1, offset: v.2 }),
        Err(first) => {
            match normalize_pg_timestamptz(s) {
                Some(normalized) => match parse_rfc3339(normalized.as_str()) {
                    Ok(v) => Ok(Timestamp { secs: v.0, nanos: v.1, offset: v.2 }),
                    Err(source) => Err(ThermalError::DateTimeParse { value: owned(s), source }),
                },
                None => Err(ThermalError::DateTimeParse { value: owned(s), source: first }),
            }
        },
    }
}

} // verus!
