//! Time-value samples of a series, read from query rows whose time may be RFC 3339, RFC
//! 3339 with `Z`, or a naive UTC date and time.
use vstd::prelude::*;
use vstd::string::StringSliceAdditionalSpecFns;
use vstd::utf8::{decode_utf8, encode_utf8, is_char_boundary};

use crate::flux::{lookup, CellsView, FluxRow};
use crate::time::{
    naive_utc_parse, parse_naive_utc, parse_rfc3339, rfc3339_parse, ts_of, utc_ts, Timestamp,
};

verus! {

/// `s` with each `Z` written as `+00:00`.
pub open spec fn z_as_utc(s: Seq<char>) -> Seq<char>
    decreases s.len(),
{
    if s.len() == 0 {
        Seq::empty()
    } else {
        z_as_utc(s.drop_last()) + if s.last() == 'Z' {
            "+00:00"@
        } else {
            seq![s.last()]
        }
    }
}

/// Whether the first 19 bytes of `s` end on a character boundary (or `s` is no longer).
pub open spec fn naive_cut_ok(s: Seq<char>) -> bool {
    encode_utf8(s).len() <= 19 || is_char_boundary(encode_utf8(s), 19)
}

/// The first 19 bytes of `s` as text, or all of `s` where it is shorter.
pub open spec fn naive_head(s: Seq<char>) -> Seq<char> {
    if encode_utf8(s).len() <= 19 {
        s
    } else {
        decode_utf8(encode_utf8(s).take(19))
    }
}

/// The instant a sample's time text names: RFC 3339 as written; else RFC 3339 once each
/// `Z` is written `+00:00`; else the first 19 bytes read as `%Y-%m-%dT%H:%M:%S` in UTC.
pub open spec fn series_time_of(s: Seq<char>) -> Option<Timestamp> {
    if rfc3339_parse(s) is Some {
        Some(ts_of(rfc3339_parse(s).unwrap()))
    } else if rfc3339_parse(z_as_utc(s)) is Some {
        Some(ts_of(rfc3339_parse(z_as_utc(s)).unwrap()))
    } else {
        match naive_utc_parse(naive_head(s), "%Y-%m-%dT%H:%M:%S"@) {
            Some(v) => Some(utc_ts(v)),
            None => None,
        }
    }
}

/// Writes each `Z` of `s` as `+00:00`.
pub fn z_as_utc_text(s: &str) -> (r: String)
    ensures
        r@ == z_as_utc(s@),
{
    let n = s.unicode_len();
    let mut out = String::new();
    let mut i: usize = 0;
    while i < n
        invariant
            n == s@.len(),
            i <= n,
            out@ == z_as_utc(s@.take(i as int)),
        decreases n - i,
    {
        let c = s.get_char(i);
        proof {
            assert(s@.take(i + 1).drop_last() =~= s@.take(i as int));
        }
        if c == 'Z' {
            out.append("+00:00");
        } else {
            let one = s.substring_char(i, i + 1);
            assert(one@ =~= seq![c]);
            out.append(one);
        }
        i = i + 1;
    }
    assert(s@.take(n as int) =~= s@);
    out
}

/// Whether a time text can be cut at its 19th byte: it is no longer, or a character ends
/// there.
pub fn naive_cut_fits(s: &str) -> (r: bool)
    ensures
        r == naive_cut_ok(s@),
{
    assert(s.spec_bytes() == encode_utf8(s@));
    let n = s.as_bytes().len();
    assert(n == encode_utf8(s@).len());
    if n <= 19 {
        return true;
    }
    let b = s.is_char_boundary(19);
    b
}

/// Reads a sample's time text. Where neither RFC 3339 reading succeeds the first 19 bytes
/// are read on their own, so they must end on a character boundary; `chrono` accepts RFC
/// 3339 only with plain ASCII in those bytes, so the requirement holds of every text read
/// the first two ways.
pub fn series_time(s: &str) -> (r: Option<Timestamp>)
    requires
        naive_cut_ok(s@),
    ensures
        r == series_time_of(s@),
{
    if let Ok(v) = parse_rfc3339(s) {
        return Some(Timestamp { secs: v.0, nanos: v.1, offset: v.2 });
    }
    let z = z_as_utc_text(s);
    if let Ok(v) = parse_rfc3339(z.as_str()) {
        return Some(Timestamp { secs: v.0, nanos: v.1, offset: v.2 });
    }
    assert(s.spec_bytes() == encode_utf8(s@));
    let head: &str = if s.as_bytes().len() <= 19 {
        s
    } else {
        let (h, _) = s.split_at(19);
        proof {
            assert(h.spec_bytes() == encode_utf8(h@));
            assert(encode_utf8(h@) =~= encode_utf8(s@).take(19));
            vstd::utf8::encode_utf8_decode_utf8(h@);
        }
        h
    };
    assert(head@ == naive_head(s@));
    match parse_naive_utc(head, "%Y-%m-%dT%H:%M:%S") {
        Some(v) => Some(Timestamp { secs: v.0, nanos: v.1, offset: 0 }),
        None => None,
    }
}

/// The time cell of a row: `_time`, else `time`.
pub open spec fn row_time(cells: CellsView) -> Option<Seq<char>> {
    if lookup(cells, "_time"@) is Some {
        lookup(cells, "_time"@)
    } else {
        lookup(cells, "time"@)
    }
}

/// The value cell of a row: `_value`, else `value`.
pub open spec fn row_value(cells: CellsView) -> Option<Seq<char>> {
    if lookup(cells, "_value"@) is Some {
        lookup(cells, "_value"@)
    } else {
        lookup(cells, "value"@)
    }
}

/// The time text of a row (`_time`, else `time`).
pub fn row_time_text(row: &FluxRow) -> (r: Option<&String>)
    ensures
        r is Some <==> row_time(row@) is Some,
        r matches Some(t) ==> t@ == row_time(row@).unwrap(),
{
    match row.get("_time") {
        Some(t) => Some(t),
        None => row.get("time"),
    }
}

/// The value text of a row (`_value`, else `value`).
pub fn row_value_text(row: &FluxRow) -> (r: Option<&String>)
    ensures
        r is Some <==> row_value(row@) is Some,
        r matches Some(v) ==> v@ == row_value(row@).unwrap(),
{
    match row.get("_value") {
        Some(v) => Some(v),
        None => row.get("value"),
    }
}

/// Rows whose time must be read: they have both a time and a value.
pub open spec fn has_time_and_value(cells: CellsView) -> bool {
    row_time(cells) is Some && row_value(cells) is Some
}

/// The samples of rows, in row order: each row with a time and a value whose time reads
/// gives that instant and its value text; other rows give none.
pub open spec fn series_samples(rows: Seq<CellsView>) -> Seq<(Timestamp, Seq<char>)>
    decreases rows.len(),
{
    if rows.len() == 0 {
        Seq::empty()
    } else {
        let prev = series_samples(rows.drop_last());
        let cells = rows.last();
        if has_time_and_value(cells) && series_time_of(row_time(cells).unwrap()) is Some {
            prev.push((series_time_of(row_time(cells).unwrap()).unwrap(), row_value(cells).unwrap()))
        } else {
            prev
        }
    }
}

pub open spec fn samples_view(v: Seq<(Timestamp, String)>) -> Seq<(Timestamp, Seq<char>)> {
    v.map_values(|p: (Timestamp, String)| (p.0, p.1@))
}

pub open spec fn cells_of(rows: Seq<FluxRow>) -> Seq<CellsView> {
    rows.map_values(|r: FluxRow| r@)
}

/// Reads the samples of query rows: for each row with a time (`_time`, else `time`) and a
/// value (`_value`, else `value`) whose time reads, the instant and the value text, in row
/// order.
pub fn series_time_texts(rows: &[FluxRow]) -> (r: Vec<(Timestamp, String)>)
    requires
        forall|i: int|
            0 <= i < rows@.len() && has_time_and_value(#[trigger] rows@[i]@) ==> naive_cut_ok(
                row_time(rows@[i]@).unwrap(),
            ),
    ensures
        samples_view(r@) == series_samples(cells_of(rows@)),
{
    let ghost cells = cells_of(rows@);
    let mut out: Vec<(Timestamp, String)> = Vec::new();
    let mut i: usize = 0;
    assert(samples_view(out@) =~= series_samples(cells.take(0)));
    while i < rows.len()
        invariant
            i <= rows@.len(),
            cells == cells_of(rows@),
            forall|k: int|
                0 <= k < rows@.len() && has_time_and_value(#[trigger] rows@[k]@) ==> naive_cut_ok(
                    row_time(rows@[k]@).unwrap(),
                ),
            samples_view(out@) == series_samples(cells.take(i as int)),
        decreases rows@.len() - i,
    {
        let row = &rows[i];
        proof {
            assert(cells.take(i + 1).drop_last() =~= cells.take(i as int));
            assert(cells.take(i + 1).last() == row@);
        }
        match (row_time_text(row), row_value_text(row)) {
            (Some(t), Some(v)) => {
                proof {
                    assert(has_time_and_value(rows@[i as int]@));
                }
                match series_time(t.as_str()) {
                    Some(ts) => {
                        let ghost before = out@;
                        out.push((ts, v.clone()));
                        assert(samples_view(out@) =~= samples_view(before).push((ts, v@)));
                    },
                    None => {},
                }
            },
            _ => {},
        }
        i = i + 1;
    }
    assert(cells.take(rows@.len() as int) =~= cells);
    out
}

} // verus!
