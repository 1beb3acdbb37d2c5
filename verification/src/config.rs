//! Defaults of the thermal configuration and the validation windows it names.
use vstd::prelude::*;

use crate::error::ThermalError;
use crate::text::owned;
use crate::time::{parse_dt, parsed_dt, Timestamp};

verus! {

/// Door state of a window or fit whose configuration names none.
pub fn default_door_state() -> (r: String)
    ensures
        r@ == "normal"@,
{
    owned("normal")
}

/// Heat-pump status codes that mean the compressor is off.
pub open spec fn off_codes() -> Seq<i32> {
    seq![100i32, 101, 102, 103, 104, 105, 106, 107, 108, 110, 134]
}

/// Status codes counted as off when the configuration names none.
pub fn default_off_codes() -> (r: Vec<i32>)
    ensures
        r@ == off_codes(),
{
    let r = vec![100i32, 101, 102, 103, 104, 105, 106, 107, 108, 110, 134];
    assert(r@ =~= off_codes());
    r
}

/// A validation window as the configuration writes it.
#[derive(Debug, Clone)]
pub struct ValidationWindowCfg {
    pub name: String,
    pub start: String,
    pub end: String,
    pub door_state: String,
}

/// A validation window with its bounds read.
#[derive(Debug, Clone)]
pub struct ParsedWindow {
    pub name: String,
    pub start: Timestamp,
    pub end: Timestamp,
    pub door_state: String,
}

/// Both bounds of the window can be read.
pub open spec fn window_readable(w: ValidationWindowCfg) -> bool {
    parsed_dt(w.start@) is Some && parsed_dt(w.end@) is Some
}

/// `p` is `w` with its bounds read.
pub open spec fn window_parsed(w: ValidationWindowCfg, p: ParsedWindow) -> bool {
    &&& p.name@ == w.name@
    &&& p.door_state@ == w.door_state@
    &&& parsed_dt(w.start@) == Some((p.start.secs, p.start.nanos, p.start.offset))
    &&& parsed_dt(w.end@) == Some((p.end.secs, p.end.nanos, p.end.offset))
    &&& p.start.wf()
    &&& p.end.wf()
}

/// The text that fails first in window `w`: its start if that cannot be read, else its end.
pub open spec fn first_unreadable(w: ValidationWindowCfg) -> Seq<char> {
    if parsed_dt(w.start@) is None {
        w.start@
    } else {
        w.end@
    }
}

/// Reads the bounds of every window, in order; the first bound that cannot be read is the
/// error.
pub fn parse_validation_windows(raw: &[ValidationWindowCfg]) -> (r: Result<Vec<ParsedWindow>, ThermalError>)
    ensures
        r is Ok <==> forall|i: int| 0 <= i < raw@.len() ==> window_readable(#[trigger] raw@[i]),
        r matches Ok(v) ==> v@.len() == raw@.len() && forall|i: int|
            0 <= i < raw@.len() ==> window_parsed(raw@[i], #[trigger] v@[i]),
        r matches Err(e) ==> exists|i: int|
            0 <= i < raw@.len() && !window_readable(#[trigger] raw@[i]) && (forall|j: int|
                0 <= j < i ==> window_readable(#[trigger] raw@[j])) && (e matches ThermalError::DateTimeParse {
                value,
                ..
            } && value@ == first_unreadable(raw@[i])),
{
    let mut out: Vec<ParsedWindow> = Vec::new();
    let mut i: usize = 0;
    while i < raw.len()
        invariant
            i <= raw@.len(),
            out@.len() == i,
            forall|j: int| 0 <= j < i ==> window_readable(#[trigger] raw@[j]),
            forall|j: int| 0 <= j < i ==> window_parsed(raw@[j], #[trigger] out@[j]),
        decreases raw@.len() - i,
    {
        let w = &raw[i];
        let start = match parse_dt(w.start.as_str()) {
            Ok(t) => t,
            Err(e) => {
                assert(!window_readable(raw@[i as int]));
                return Err(e);
            },
        };
        let end = match parse_dt(w.end.as_str()) {
            Ok(t) => t,
            Err(e) => {
                assert(!window_readable(raw@[i as int]));
                return Err(e);
            },
        };
        out.push(
            ParsedWindow {
                name: owned(w.name.as_str()),
                start,
                end,
                door_state: owned(w.door_state.as_str()),
            },
        );
        i = i + 1;
    }
    Ok(out)
}

} // verus!
