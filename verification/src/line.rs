//! The per-line scanner: one left-to-right pass over a declaration line's
//! characters that yields a `(key, value)` pair or the reason it cannot.
//!
//! The scan is modelled by [`scan`], a fold of [`step`] over the line's
//! characters, and [`line_result`] reads the pair (or the failure) off the
//! final [`ScanState`]. The executable [`parse_line`] is proved to return
//! exactly what `line_result` describes.

use crate::text::{is_space, is_space_char, trim_end_spec, trim_end_str};
use vstd::prelude::*;

verus! {

/// The quote characters that open and close a quoted span.
pub open spec fn is_quote_char(c: char) -> bool {
    c == '"' || c == '\'' || c == '`'
}

fn is_quote(c: char) -> (r: bool)
    ensures
        r == is_quote_char(c),
{
    c == '"' || c == '\'' || c == '`'
}

/// The scanner's state after some prefix of the line: the active phase
/// (name before the first unquoted `=`, value after it), the currently open
/// quote, the span bounds gathered so far (character indices, begin
/// inclusive, end exclusive), whether the value still owes a trailing trim
/// because a comment cut it short, and whether scanning has stopped early.
pub ghost struct ScanState {
    pub in_value: bool,
    pub quote: Option<char>,
    pub name_begin: Option<int>,
    pub name_end: Option<int>,
    pub value_begin: Option<int>,
    pub value_end: Option<int>,
    pub must_trim: bool,
    pub stopped: bool,
}

/// The state before any character has been read.
pub open spec fn init_state() -> ScanState {
    ScanState {
        in_value: false,
        quote: None,
        name_begin: None,
        name_end: None,
        value_begin: None,
        value_end: None,
        must_trim: false,
        stopped: false,
    }
}

/// One transition of the scanner on the character `c` at position `i`.
///
/// While a quote is open, the matching quote closes the active span just
/// before itself (and, in the value phase, ends the scan); every other
/// character is content. While unquoted: a quote opens quoting and restarts
/// the active span just after itself; the first `=` switches from name to
/// value phase; a `#` in the value phase cuts the value off just before
/// itself, owing a trailing trim; whitespace neither starts nor extends a
/// span; any other character extends the active span, starting it here if it
/// has not begun.
pub open spec fn step(st: ScanState, c: char, i: int) -> ScanState {
    if st.stopped {
        st
    } else if st.quote is Some {
        if c == st.quote->0 {
            if st.in_value {
                ScanState { quote: None, value_end: Some(i), stopped: true, ..st }
            } else {
                ScanState { quote: None, name_end: Some(i), ..st }
            }
        } else {
            if st.in_value {
                ScanState { value_end: Some(i + 1), ..st }
            } else {
                ScanState { name_end: Some(i + 1), ..st }
            }
        }
    } else if is_quote_char(c) {
        if st.in_value {
            ScanState { quote: Some(c), value_begin: Some(i + 1), ..st }
        } else {
            ScanState { quote: Some(c), name_begin: Some(i + 1), ..st }
        }
    } else if c == '=' {
        if !st.in_value {
            ScanState { in_value: true, ..st }
        } else {
            st
        }
    } else if c == '#' {
        if st.in_value {
            ScanState { value_end: Some(i), must_trim: true, stopped: true, ..st }
        } else {
            st
        }
    } else if is_space_char(c) {
        st
    } else {
        if st.in_value {
            ScanState {
                value_begin: if st.value_begin is None {
                    Some(i)
                } else {
                    st.value_begin
                },
                value_end: Some(i + 1),
                ..st
            }
        } else {
            ScanState {
                name_begin: if st.name_begin is None {
                    Some(i)
                } else {
                    st.name_begin
                },
                name_end: Some(i + 1),
                ..st
            }
        }
    }
}

/// The scanner's state after the first `i` characters of `s`.
pub open spec fn scan(s: Seq<char>, i: int) -> ScanState
    decreases i,
{
    if i <= 0 {
        init_state()
    } else {
        step(scan(s, i - 1), s[i - 1], i - 1)
    }
}

/// The text between two gathered bounds; empty where a bound is missing or
/// the bounds have crossed (a span that was restarted and never refilled).
pub open spec fn span_of(s: Seq<char>, b: Option<int>, e: Option<int>) -> Seq<char> {
    match (b, e) {
        (Some(bb), Some(ee)) => {
            if 0 <= bb && bb <= ee && ee <= s.len() {
                s.subrange(bb, ee)
            } else {
                Seq::empty()
            }
        },
        _ => Seq::empty(),
    }
}

/// What scanning a whole line yields: `None` where the line is malformed
/// (the name's end or the value's begin was never established, as for `=`
/// alone, a missing `=`, or `KEY=` with nothing after it), otherwise the
/// name span and the value span, the latter trimmed of trailing whitespace
/// where a comment cut it short.
pub open spec fn line_result(s: Seq<char>) -> Option<(Seq<char>, Seq<char>)> {
    let st = scan(s, s.len() as int);
    if st.name_end is None || st.value_begin is None {
        None
    } else {
        let name = span_of(s, st.name_begin, st.name_end);
        let raw = span_of(s, st.value_begin, st.value_end);
        Some((name, if st.must_trim {
            trim_end_spec(raw)
        } else {
            raw
        }))
    }
}

/// The message a malformed line is reported with.
pub open spec fn no_pair_message(s: Seq<char>) -> Seq<char> {
    ("No name or value in '")@ + s + ("'")@
}

/// A stopped scan no longer changes: the state after `j` characters is the
/// state at the stop.
pub proof fn lemma_scan_stopped(s: Seq<char>, i: int, j: int)
    requires
        0 <= i <= j <= s.len(),
        scan(s, i).stopped,
    ensures
        scan(s, j) == scan(s, i),
    decreases j - i,
{
    if j > i {
        lemma_scan_stopped(s, i, j - 1);
    }
}

/// Every bound a reachable scanner state has gathered lies within the prefix
/// read so far (a begin may sit one past it, where a quote just opened).
proof fn lemma_scan_wf(s: Seq<char>, i: int)
    requires
        0 <= i <= s.len(),
    ensures
        ({
            let st = scan(s, i);
            &&& (st.name_begin is Some ==> 0 <= st.name_begin->0 <= i)
            &&& (st.name_end is Some ==> 0 <= st.name_end->0 <= i)
            &&& (st.value_begin is Some ==> 0 <= st.value_begin->0 <= i)
            &&& (st.value_end is Some ==> 0 <= st.value_end->0 <= i)
        }),
    decreases i,
{
    if i > 0 {
        lemma_scan_wf(s, i - 1);
    }
}

/// Turns the gathered bounds into the exec substring that `span_of` names.
fn span_str<'a>(s: &'a str, b: Option<usize>, e: Option<usize>) -> (r: &'a str)
    requires
        b is Some ==> b->0 <= s@.len(),
        e is Some ==> e->0 <= s@.len(),
    ensures
        r@ == span_of(s@, opt_index(b), opt_index(e)),
{
    match (b, e) {
        (Some(bb), Some(ee)) => {
            if bb <= ee {
                s.substring_char(bb, ee)
            } else {
                let r = s.substring_char(0, 0);
                proof {
                    assert(r@ =~= Seq::<char>::empty());
                }
                r
            }
        },
        _ => {
            let r = s.substring_char(0, 0);
            proof {
                assert(r@ =~= Seq::<char>::empty());
            }
            r
        },
    }
}

/// The ghost image of an executable bound.
pub open spec fn opt_index(o: Option<usize>) -> Option<int> {
    match o {
        Some(v) => Some(v as int),
        None => None,
    }
}

/// Parses one declaration line into its key and value, or reports why it
/// cannot. The result is exactly what [`line_result`] gives for the line's
/// characters; a malformed line is refused with [`no_pair_message`].
pub fn parse_line(s: &str) -> (r: Result<(&str, &str), String>)
    ensures
        match r {
            Ok(kv) => line_result(s@) == Some((kv.0@, kv.1@)),
            Err(m) => line_result(s@) is None && m@ == no_pair_message(s@),
        },
{
    let n = s.unicode_len();
    let mut in_value = false;
    let mut quote: Option<char> = None;
    let mut name_begin: Option<usize> = None;
    let mut name_end: Option<usize> = None;
    let mut value_begin: Option<usize> = None;
    let mut value_end: Option<usize> = None;
    let mut must_trim = false;
    let mut stopped = false;
    let mut i: usize = 0;
    while i < n && !stopped
        invariant
            0 <= i <= n,
            n == s@.len(),
            ({
                let g = scan(s@, i as int);
                &&& g.in_value == in_value
                &&& g.quote == quote
                &&& g.name_begin == opt_index(name_begin)
                &&& g.name_end == opt_index(name_end)
                &&& g.value_begin == opt_index(value_begin)
                &&& g.value_end == opt_index(value_end)
                &&& g.must_trim == must_trim
                &&& g.stopped == stopped
            }),
        decreases n - i,
    {
        let c = s.get_char(i);
        if let Some(q) = quote {
            if c == q {
                quote = None;
                if in_value {
                    value_end = Some(i);
                    stopped = true;
                } else {
                    name_end = Some(i);
                }
            } else {
                if in_value {
                    value_end = Some(i + 1);
                } else {
                    name_end = Some(i + 1);
                }
            }
        } else if is_quote(c) {
            quote = Some(c);
            if in_value {
                value_begin = Some(i + 1);
            } else {
                name_begin = Some(i + 1);
            }
        } else if c == '=' {
            if !in_value {
                in_value = true;
            }
        } else if c == '#' {
            if in_value {
                value_end = Some(i);
                must_trim = true;
                stopped = true;
            }
        } else if is_space(c) {
        } else {
            if in_value {
                if value_begin.is_none() {
                    value_begin = Some(i);
                }
                value_end = Some(i + 1);
            } else {
                if name_begin.is_none() {
                    name_begin = Some(i);
                }
                name_end = Some(i + 1);
            }
        }
        i = i + 1;
    }
    proof {
        if stopped && i < n {
            lemma_scan_stopped(s@, i as int, n as int);
        }
        lemma_scan_wf(s@, n as int);
    }
    if name_end.is_none() || value_begin.is_none() {
        let mut m = String::from_str("No name or value in '");
        m.append(s);
        m.append("'");
        Err(m)
    } else {
        let name = span_str(s, name_begin, name_end);
        let raw = span_str(s, value_begin, value_end);
        let value = if must_trim {
            trim_end_str(raw)
        } else {
            raw
        };
        Ok((name, value))
    }
}

} // verus!
