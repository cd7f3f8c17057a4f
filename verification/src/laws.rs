//! The library's general laws, stated over the same spec functions that the
//! executable functions' contracts use, and proved once and for all.

use crate::aggregate::{
    error_indices_upto, first_failure, is_skip, joined, line_error_message, messages_of,
    outcome_of, pairs_upto, parse_post, take_stored, Outcome,
};
use crate::errors::SimpleEnvError;
use crate::line::{
    init_state, is_quote_char, lemma_scan_stopped, line_result, scan, span_of, step, ScanState,
};
use crate::text::{
    is_space_char, lemma_trim_end_done, lemma_trim_end_step, trim_end_spec, trim_spec,
};
use vstd::prelude::*;

verus! {

/// Whether two parse results agree in everything a caller can observe: the
/// same pair list, or the same error kind, message and partial list.
pub open spec fn same_parse_result(
    r1: Result<Vec<(String, String)>, SimpleEnvError>,
    r2: Result<Vec<(String, String)>, SimpleEnvError>,
) -> bool {
    match (r1, r2) {
        (Ok(a), Ok(b)) => a.deep_view() == b.deep_view(),
        (Err(a), Err(b)) => {
            &&& a.kind@ == b.kind@
            &&& a.message@ == b.message@
            &&& match (a.list, b.list) {
                (Some(x), Some(y)) => x.deep_view() == y.deep_view(),
                (None, None) => true,
                _ => false,
            }
        },
        _ => false,
    }
}

/// Parsing is deterministic: any two results that satisfy the parse contract
/// for the same input text agree in the ordered pair list and in every error
/// description.
pub proof fn lemma_parse_deterministic(
    lines: Seq<Result<String, String>>,
    r1: Result<Vec<(String, String)>, SimpleEnvError>,
    r2: Result<Vec<(String, String)>, SimpleEnvError>,
)
    requires
        parse_post(lines, r1),
        parse_post(lines, r2),
    ensures
        same_parse_result(r1, r2),
{
}

/// Reading the pair list off a clean prefix: where every line is readable,
/// none is blank or a comment, and every one parses, the first `i` lines
/// contribute exactly `i` pairs, in order, and no error.
proof fn lemma_clean_prefix(lines: Seq<Result<Seq<char>, Seq<char>>>, i: int)
    requires
        0 <= i <= lines.len(),
        forall|j: int| 0 <= j < lines.len() ==> lines[j] is Ok,
        forall|j: int|
            0 <= j < lines.len() ==> !is_skip(trim_spec(#[trigger] lines[j]->Ok_0)),
        forall|j: int|
            0 <= j < lines.len() ==> line_result(trim_spec(#[trigger] lines[j]->Ok_0)) is Some,
    ensures
        first_failure(lines, i) is None,
        error_indices_upto(lines, i) == Seq::<int>::empty(),
        pairs_upto(lines, i).len() == i,
        forall|j: int|
            0 <= j < i ==> pairs_upto(lines, i)[j] == line_result(
                trim_spec(#[trigger] lines[j]->Ok_0),
            )->0,
    decreases i,
{
    if i > 0 {
        lemma_clean_prefix(lines, i - 1);
        assert(error_indices_upto(lines, i) =~= Seq::<int>::empty());
    }
}

/// Where every line of a file is a well-formed declaration — readable, not
/// blank, not a comment, and parsing to a pair — the outcome is success and
/// the pair list has exactly one pair per line, in the same order.
pub proof fn lemma_all_declarations_parse(lines: Seq<Result<Seq<char>, Seq<char>>>)
    requires
        forall|j: int| 0 <= j < lines.len() ==> lines[j] is Ok,
        forall|j: int|
            0 <= j < lines.len() ==> !is_skip(trim_spec(#[trigger] lines[j]->Ok_0)),
        forall|j: int|
            0 <= j < lines.len() ==> line_result(trim_spec(#[trigger] lines[j]->Ok_0)) is Some,
    ensures
        outcome_of(lines) is Pairs,
        outcome_of(lines)->Pairs_0.len() == lines.len(),
        forall|j: int|
            0 <= j < lines.len() ==> outcome_of(lines)->Pairs_0[j] == line_result(
                trim_spec(#[trigger] lines[j]->Ok_0),
            )->0,
{
    lemma_clean_prefix(lines, lines.len() as int);
}

/// The bookkeeping for a file with exactly one malformed line: the first `i`
/// lines contribute one pair per well-formed line, and the malformed line's
/// index is the only recorded error.
proof fn lemma_one_bad_prefix(lines: Seq<Result<Seq<char>, Seq<char>>>, bad: int, i: int)
    requires
        0 <= i <= lines.len(),
        0 <= bad < lines.len(),
        forall|j: int| 0 <= j < lines.len() ==> lines[j] is Ok,
        forall|j: int|
            0 <= j < lines.len() ==> !is_skip(trim_spec(#[trigger] lines[j]->Ok_0)),
        forall|j: int|
            0 <= j < lines.len() && j != bad ==> line_result(
                trim_spec(#[trigger] lines[j]->Ok_0),
            ) is Some,
        line_result(trim_spec(lines[bad]->Ok_0)) is None,
    ensures
        first_failure(lines, i) is None,
        error_indices_upto(lines, i) == if i <= bad {
            Seq::<int>::empty()
        } else {
            seq![bad]
        },
        pairs_upto(lines, i).len() == if i <= bad {
            i
        } else {
            i - 1
        },
    decreases i,
{
    if i > 0 {
        lemma_one_bad_prefix(lines, bad, i - 1);
        if i - 1 == bad {
            assert(error_indices_upto(lines, i) =~= seq![bad]);
        } else if i <= bad {
            assert(error_indices_upto(lines, i) =~= Seq::<int>::empty());
        } else {
            assert(error_indices_upto(lines, i) =~= seq![bad]);
        }
    } else {
        assert(error_indices_upto(lines, i) =~= Seq::<int>::empty());
    }
}

/// A file with exactly one malformed line among well-formed declaration
/// lines fails as a content error whose partial list still holds one pair
/// per well-formed line, and whose message is the one diagnostic naming the
/// malformed line's zero-based index.
pub proof fn lemma_one_malformed_line(lines: Seq<Result<Seq<char>, Seq<char>>>, bad: int)
    requires
        0 <= bad < lines.len(),
        forall|j: int| 0 <= j < lines.len() ==> lines[j] is Ok,
        forall|j: int|
            0 <= j < lines.len() ==> !is_skip(trim_spec(#[trigger] lines[j]->Ok_0)),
        forall|j: int|
            0 <= j < lines.len() && j != bad ==> line_result(
                trim_spec(#[trigger] lines[j]->Ok_0),
            ) is Some,
        line_result(trim_spec(lines[bad]->Ok_0)) is None,
    ensures
        outcome_of(lines) is ContentFailure,
        outcome_of(lines)->ContentFailure_1.len() == lines.len() - 1,
        outcome_of(lines)->ContentFailure_0 == line_error_message(
            bad,
            trim_spec(lines[bad]->Ok_0),
        ),
{
    let n = lines.len() as int;
    lemma_one_bad_prefix(lines, bad, n);
    let idxs = error_indices_upto(lines, n);
    assert(idxs == seq![bad]);
    assert(take_stored(idxs) == idxs);
    let msgs = messages_of(lines, idxs);
    assert(msgs =~= seq![line_error_message(bad, trim_spec(lines[bad]->Ok_0))]);
    assert(joined(msgs) == msgs[0]);
}

/// A character with no role of its own in a declaration line: not a quote,
/// not `=`, not `#`, and not whitespace.
pub open spec fn plain_char(c: char) -> bool {
    !is_quote_char(c) && c != '=' && c != '#' && !is_space_char(c)
}

/// The scanner's state inside a run of plain characters at the start of a
/// line: still in the name phase, with the name span covering the prefix
/// read so far.
proof fn lemma_scan_name_run(s: Seq<char>, m: int, i: int)
    requires
        0 < i <= m <= s.len(),
        forall|j: int| 0 <= j < m ==> plain_char(#[trigger] s[j]),
    ensures
        scan(s, i) == (ScanState {
            in_value: false,
            quote: None,
            name_begin: Some(0),
            name_end: Some(i),
            value_begin: None,
            value_end: None,
            must_trim: false,
            stopped: false,
        }),
    decreases i,
{
    if i > 1 {
        lemma_scan_name_run(s, m, i - 1);
    } else {
        reveal_with_fuel(scan, 2);
    }
}

/// The scanner's state after a plain name, its `=`, and a run of plain value
/// characters: in the value phase, with both spans covering what was read.
proof fn lemma_scan_plain_value(s: Seq<char>, m: int, i: int)
    requires
        0 < m < s.len(),
        m + 1 <= i <= s.len(),
        forall|j: int| 0 <= j < m ==> plain_char(#[trigger] s[j]),
        s[m] == '=',
        forall|j: int| m + 1 <= j < i ==> plain_char(#[trigger] s[j]),
    ensures
        scan(s, i) == (ScanState {
            in_value: true,
            quote: None,
            name_begin: Some(0),
            name_end: Some(m),
            value_begin: if i == m + 1 {
                None
            } else {
                Some(m + 1)
            },
            value_end: if i == m + 1 {
                None
            } else {
                Some(i)
            },
            must_trim: false,
            stopped: false,
        }),
    decreases i,
{
    if i == m + 1 {
        lemma_scan_name_run(s, m, m);
    } else {
        lemma_scan_plain_value(s, m, i - 1);
    }
}

/// Parsing `KEY=VALUE` — plain name, one `=`, plain value, nothing else —
/// always yields exactly that name and that value, whatever their
/// characters (multi-byte ones included) are.
pub proof fn lemma_plain_round_trip(k: Seq<char>, v: Seq<char>)
    requires
        k.len() > 0,
        v.len() > 0,
        forall|j: int| 0 <= j < k.len() ==> plain_char(#[trigger] k[j]),
        forall|j: int| 0 <= j < v.len() ==> plain_char(#[trigger] v[j]),
    ensures
        line_result(k + seq!['='] + v) == Some((k, v)),
{
    let s = k + seq!['='] + v;
    let m = k.len() as int;
    let n = s.len() as int;
    assert(forall|j: int| 0 <= j < m ==> s[j] == k[j]);
    assert(s[m] == '=');
    assert(forall|j: int| m + 1 <= j < n ==> s[j] == v[j - m - 1]);
    lemma_scan_plain_value(s, m, n);
    assert(span_of(s, Some(0), Some(m)) =~= k);
    assert(span_of(s, Some(m + 1), Some(n)) =~= v);
}

/// The scanner's state inside a quoted value: the quote stays open, and the
/// value span covers exactly what has come after the opening quote.
proof fn lemma_scan_quoted_value(s: Seq<char>, m: int, i: int, q: char)
    requires
        0 < m,
        m + 2 <= i <= s.len(),
        forall|j: int| 0 <= j < m ==> plain_char(#[trigger] s[j]),
        s[m] == '=',
        is_quote_char(q),
        s[m + 1] == q,
        forall|j: int| m + 2 <= j < i ==> #[trigger] s[j] != q,
    ensures
        scan(s, i) == (ScanState {
            in_value: true,
            quote: Some(q),
            name_begin: Some(0),
            name_end: Some(m),
            value_begin: Some(m + 2),
            value_end: if i == m + 2 {
                None
            } else {
                Some(i)
            },
            must_trim: false,
            stopped: false,
        }),
    decreases i,
{
    if i == m + 2 {
        lemma_scan_plain_value(s, m, m + 1);
    } else {
        lemma_scan_quoted_value(s, m, i - 1, q);
    }
}

/// A quoted value is taken verbatim: parsing `KEY=<q>VALUE<q>`, with any of
/// the three quote characters around a value free of that character, yields
/// the value exactly — internal and boundary whitespace included.
pub proof fn lemma_quoted_value_verbatim(k: Seq<char>, v: Seq<char>, q: char)
    requires
        k.len() > 0,
        forall|j: int| 0 <= j < k.len() ==> plain_char(#[trigger] k[j]),
        is_quote_char(q),
        forall|j: int| 0 <= j < v.len() ==> #[trigger] v[j] != q,
    ensures
        line_result(k + seq!['='] + seq![q] + v + seq![q]) == Some((k, v)),
{
    let s = k + seq!['='] + seq![q] + v + seq![q];
    let m = k.len() as int;
    let n = s.len() as int;
    assert(forall|j: int| 0 <= j < m ==> s[j] == k[j]);
    assert(s[m] == '=');
    assert(s[m + 1] == q);
    assert(forall|j: int| m + 2 <= j < n - 1 ==> s[j] == v[j - m - 2]);
    assert(s[n - 1] == q);
    lemma_scan_quoted_value(s, m, n - 1, q);
    assert(span_of(s, Some(0), Some(m)) =~= k);
    assert(span_of(s, Some(m + 2), Some(n - 1)) =~= v);
}

/// A line consisting only of `=` is malformed: no name is ever gathered.
pub proof fn lemma_equals_only_fails()
    ensures
        line_result(seq!['=']) is None,
{
    reveal_with_fuel(scan, 2);
    assert(scan(seq!['='], 1) == step(init_state(), '=', 0));
}

/// `KEY=` with nothing after the `=` is malformed: the value's begin is
/// never established, however well-formed the key is.
pub proof fn lemma_empty_value_fails(k: Seq<char>)
    requires
        k.len() > 0,
        forall|j: int| 0 <= j < k.len() ==> plain_char(#[trigger] k[j]),
    ensures
        line_result(k + seq!['=']) is None,
{
    let s = k + seq!['='];
    let m = k.len() as int;
    assert(forall|j: int| 0 <= j < m ==> s[j] == k[j]);
    assert(s[m] == '=');
    lemma_scan_plain_value(s, m, m + 1);
}

/// The scanner's state does not move across a run of unquoted whitespace.
proof fn lemma_scan_ws_run(s: Seq<char>, a: int, i: int)
    requires
        0 <= a <= i <= s.len(),
        forall|j: int| a <= j < i ==> is_space_char(#[trigger] s[j]),
        !scan(s, a).stopped,
        scan(s, a).quote is None,
    ensures
        scan(s, i) == scan(s, a),
    decreases i - a,
{
    if i > a {
        lemma_scan_ws_run(s, a, i - 1);
    }
}

/// An unquoted trailing comment is stripped and the value right-trimmed:
/// parsing `KEY=VALUE<spaces>#<anything>` yields the value alone, without
/// the whitespace that stood before the comment.
pub proof fn lemma_comment_stripped(k: Seq<char>, v: Seq<char>, w: Seq<char>, c: Seq<char>)
    requires
        k.len() > 0,
        v.len() > 0,
        forall|j: int| 0 <= j < k.len() ==> plain_char(#[trigger] k[j]),
        forall|j: int| 0 <= j < v.len() ==> plain_char(#[trigger] v[j]),
        forall|j: int| 0 <= j < w.len() ==> is_space_char(#[trigger] w[j]),
    ensures
        line_result(k + seq!['='] + v + w + seq!['#'] + c) == Some((k, v)),
{
    let s = k + seq!['='] + v + w + seq!['#'] + c;
    let m = k.len() as int;
    let p = m + 1 + v.len() as int;
    let b = p + w.len() as int;
    let n = s.len() as int;
    assert(forall|j: int| 0 <= j < m ==> s[j] == k[j]);
    assert(s[m] == '=');
    assert(forall|j: int| m + 1 <= j < p ==> s[j] == v[j - m - 1]);
    assert(forall|j: int| p <= j < b ==> s[j] == w[j - p]);
    assert(s[b] == '#');
    lemma_scan_plain_value(s, m, p);
    lemma_scan_ws_run(s, p, b);
    assert(scan(s, b + 1) == step(scan(s, b), s[b], b));
    assert(scan(s, b + 1) == (ScanState {
        in_value: true,
        quote: None,
        name_begin: Some(0),
        name_end: Some(m),
        value_begin: Some(m + 1),
        value_end: Some(b),
        must_trim: true,
        stopped: true,
    }));
    lemma_scan_stopped(s, b + 1, n);
    assert(span_of(s, Some(0), Some(m)) =~= k);
    let raw = span_of(s, Some(m + 1), Some(b));
    assert(raw =~= v + w);
    lemma_trim_end_step(v + w, v.len() as int);
    assert((v + w).subrange(0, v.len() as int) =~= v);
    lemma_trim_end_done(v);
    assert(trim_end_spec(raw) == v);
}

} // verus!

