//! The whole-file aggregation: a fold over raw lines that skips comments and
//! blank lines, parses the rest, collects pairs in order, and turns failures
//! into a bounded diagnostic report.
//!
//! A raw line is either text that was read (`Ok`) or the message of an I/O
//! failure (`Err`). One unreadable line is fatal to the whole parse and
//! carries no partial list; a malformed line is not, and every pair parsed
//! around it is still returned.

use crate::errors::SimpleEnvError;
use crate::errors::SimpleEnvErrorWrapper;
use crate::line::{line_result, no_pair_message, parse_line};
use crate::text::{dec_str, push_decimal, trim_spec, trim_str};
use vstd::prelude::*;

verus! {

/// How many diagnostic messages are stored before the rest are only counted.
pub open spec fn stored_errors_bound() -> int {
    10
}

/// The ghost image of the raw input lines: each either the characters that
/// were read or the characters of an I/O failure's message.
pub open spec fn line_views(lines: Seq<Result<String, String>>) -> Seq<
    Result<Seq<char>, Seq<char>>,
> {
    Seq::new(
        lines.len(),
        |k: int|
            match lines[k] {
                Ok(text) => Ok(text@),
                Err(m) => Err(m@),
            },
    )
}

/// Whether a line is passed over without a pair and without an error: blank
/// after trimming, or a comment.
pub open spec fn is_skip(t: Seq<char>) -> bool {
    t.len() == 0 || t[0] == '#'
}

/// The first unreadable line among the first `i`, if any.
pub open spec fn first_failure(lines: Seq<Result<Seq<char>, Seq<char>>>, i: int) -> Option<int>
    decreases i,
{
    if i <= 0 {
        None
    } else {
        match first_failure(lines, i - 1) {
            Some(j) => Some(j),
            None => if lines[i - 1] is Err {
                Some(i - 1)
            } else {
                None
            },
        }
    }
}

/// The pairs parsed from the first `i` lines, in order of appearance.
pub open spec fn pairs_upto(lines: Seq<Result<Seq<char>, Seq<char>>>, i: int) -> Seq<
    (Seq<char>, Seq<char>),
>
    decreases i,
{
    if i <= 0 {
        Seq::empty()
    } else {
        let rest = pairs_upto(lines, i - 1);
        match lines[i - 1] {
            Err(_) => rest,
            Ok(text) => {
                let t = trim_spec(text);
                if is_skip(t) {
                    rest
                } else {
                    match line_result(t) {
                        Some(p) => rest.push(p),
                        None => rest,
                    }
                }
            },
        }
    }
}

/// The indices of the malformed lines among the first `i`, in order.
pub open spec fn error_indices_upto(lines: Seq<Result<Seq<char>, Seq<char>>>, i: int) -> Seq<int>
    decreases i,
{
    if i <= 0 {
        Seq::empty()
    } else {
        let rest = error_indices_upto(lines, i - 1);
        match lines[i - 1] {
            Err(_) => rest,
            Ok(text) => {
                let t = trim_spec(text);
                if !is_skip(t) && line_result(t) is None {
                    rest.push(i - 1)
                } else {
                    rest
                }
            },
        }
    }
}

/// The diagnostic a malformed line is recorded with: its zero-based index
/// and the line parser's reason.
pub open spec fn line_error_message(j: int, t: Seq<char>) -> Seq<char> {
    ("Error in Line ")@ + dec_str(j as nat) + (": ")@ + no_pair_message(t)
}

/// The diagnostics for the malformed lines at the given indices.
pub open spec fn messages_of(lines: Seq<Result<Seq<char>, Seq<char>>>, idxs: Seq<int>) -> Seq<
    Seq<char>,
> {
    Seq::new(idxs.len(), |q: int| line_error_message(idxs[q], trim_spec(lines[idxs[q]]->Ok_0)))
}

/// At most the first ten entries: the bound on stored diagnostics.
pub open spec fn take_stored(idxs: Seq<int>) -> Seq<int> {
    if idxs.len() <= stored_errors_bound() {
        idxs
    } else {
        idxs.subrange(0, stored_errors_bound())
    }
}

/// The messages joined with newlines, in order.
pub open spec fn joined(msgs: Seq<Seq<char>>) -> Seq<char>
    decreases msgs.len(),
{
    if msgs.len() == 0 {
        Seq::empty()
    } else if msgs.len() == 1 {
        msgs[0]
    } else {
        joined(msgs.drop_last()) + ("\n")@ + msgs.last()
    }
}

/// The whole error report for the first `i` lines: the stored diagnostics
/// joined with newlines and, where more errors occurred than were stored,
/// one summary line counting the suppressed ones.
pub open spec fn report_message(lines: Seq<Result<Seq<char>, Seq<char>>>, i: int) -> Seq<char> {
    let idxs = error_indices_upto(lines, i);
    let base = joined(messages_of(lines, take_stored(idxs)));
    if idxs.len() > stored_errors_bound() {
        base + ("\n")@ + ("And ")@ + dec_str((idxs.len() - stored_errors_bound()) as nat) + (
        " more errors in .env file")@
    } else {
        base
    }
}

/// What a whole parse comes to: a pair list, a fatal I/O failure carrying
/// its message, or a content failure carrying the report and the partial
/// pair list.
pub ghost enum Outcome {
    Pairs(Seq<(Seq<char>, Seq<char>)>),
    IoFailure(Seq<char>),
    ContentFailure(Seq<char>, Seq<(Seq<char>, Seq<char>)>),
}

/// The one outcome a sequence of raw lines determines.
pub open spec fn outcome_of(lines: Seq<Result<Seq<char>, Seq<char>>>) -> Outcome {
    let n = lines.len() as int;
    match first_failure(lines, n) {
        Some(j) => Outcome::IoFailure(lines[j]->Err_0),
        None => {
            if error_indices_upto(lines, n).len() == 0 {
                Outcome::Pairs(pairs_upto(lines, n))
            } else {
                Outcome::ContentFailure(report_message(lines, n), pairs_upto(lines, n))
            }
        },
    }
}

/// How a parse's result must reflect the outcome its input determines. This
/// single predicate is the contract of [`parse`] and of the wrappers that
/// forward to it.
pub open spec fn parse_post(
    lines: Seq<Result<String, String>>,
    r: Result<Vec<(String, String)>, SimpleEnvError>,
) -> bool {
    let out = outcome_of(line_views(lines));
    match r {
        Ok(pairs) => out == Outcome::Pairs(pairs.deep_view()),
        Err(e) => match out {
            Outcome::Pairs(_) => false,
            Outcome::IoFailure(m) => {
                &&& e.kind@ == ("io")@
                &&& e.message@ == m
                &&& e.list is None
            },
            Outcome::ContentFailure(rep, ps) => {
                &&& e.kind@ == ("LinesError")@
                &&& e.message@ == rep
                &&& match e.list {
                    Some(l) => l.deep_view() == ps,
                    None => false,
                }
            },
        },
    }
}

/// Once an unreadable line is met after a clean prefix, it stays the first
/// failure of every longer prefix.
proof fn lemma_first_failure_found(lines: Seq<Result<Seq<char>, Seq<char>>>, k: int, n: int)
    requires
        0 <= k < n <= lines.len(),
        first_failure(lines, k) is None,
        lines[k] is Err,
    ensures
        first_failure(lines, n) == Some(k),
    decreases n - k,
{
    if n > k + 1 {
        lemma_first_failure_found(lines, k, n - 1);
    }
}

/// Parses a sequence of raw lines into an ordered pair list, or into a
/// [`SimpleEnvError`]: kind `"io"` with the failure's message and no partial
/// list where a line could not be read, kind `"LinesError"` with the joined
/// per-line diagnostics and the partial pair list where lines were
/// malformed. The result is exactly what [`outcome_of`] determines.
pub fn parse(lines: &Vec<Result<String, String>>) -> (r: Result<
    Vec<(String, String)>,
    SimpleEnvError,
>)
    ensures
        parse_post(lines@, r),
{
    let ghost views = line_views(lines@);
    let n = lines.len();
    let mut list: Vec<(String, String)> = Vec::new();
    let mut stored: Vec<String> = Vec::new();
    let mut error_count: usize = 0;
    let mut k: usize = 0;
    while k < n
        invariant
            0 <= k <= n,
            n == lines@.len(),
            views == line_views(lines@),
            first_failure(views, k as int) is None,
            list.deep_view() == pairs_upto(views, k as int),
            error_count == error_indices_upto(views, k as int).len(),
            error_count <= k,
            stored.deep_view() == messages_of(
                views,
                take_stored(error_indices_upto(views, k as int)),
            ),
        decreases n - k,
    {
        let ghost prev_idxs = error_indices_upto(views, k as int);
        match &lines[k] {
            Err(m) => {
                proof {
                    lemma_first_failure_found(views, k as int, n as int);
                }
                return Err(SimpleEnvError::io_error(m.clone()));
            },
            Ok(text) => {
                let t = trim_str(text.as_str());
                if t.unicode_len() == 0 || t.get_char(0) == '#' {
                    // comment or blank line: no pair, no error
                } else {
                    match parse_line(t) {
                        Ok(kv) => {
                            let pair = (String::from_str(kv.0), String::from_str(kv.1));
                            let ghost old_dv = list.deep_view();
                            list.push(pair);
                            proof {
                                assert(list.deep_view() =~= old_dv.push((kv.0@, kv.1@)));
                            }
                        },
                        Err(reason) => {
                            error_count = error_count + 1;
                            if stored.len() < 10 {
                                let mut msg = String::from_str("Error in Line ");
                                push_decimal(&mut msg, k);
                                msg.append(": ");
                                msg.append(reason.as_str());
                                let ghost old_sdv = stored.deep_view();
                                stored.push(msg);
                                proof {
                                    let idxs = error_indices_upto(views, k as int + 1);
                                    assert(idxs =~= prev_idxs.push(k as int));
                                    assert(old_sdv.len() == take_stored(prev_idxs).len());
                                    assert(old_sdv.len() < 10);
                                    assert(prev_idxs.len() < 10);
                                    assert(take_stored(idxs) =~= idxs);
                                    assert(stored.deep_view() =~= old_sdv.push(msg@));
                                    assert(messages_of(views, idxs) =~= old_sdv.push(msg@));
                                }
                            } else {
                                proof {
                                    let idxs = error_indices_upto(views, k as int + 1);
                                    assert(idxs =~= prev_idxs.push(k as int));
                                    assert(stored.deep_view().len() == take_stored(
                                        prev_idxs,
                                    ).len());
                                    assert(stored.deep_view().len() >= 10);
                                    assert(prev_idxs.len() >= 10);
                                    assert(take_stored(idxs) =~= take_stored(prev_idxs));
                                    assert(messages_of(views, take_stored(idxs)) =~= messages_of(
                                        views,
                                        take_stored(prev_idxs),
                                    ));
                                }
                            }
                        },
                    }
                }
            },
        }
        k = k + 1;
    }
    if error_count == 0 {
        Ok(list)
    } else {
        let mut message = String::new();
        let stored_n = stored.len();
        let mut q: usize = 0;
        while q < stored_n
            invariant
                0 <= q <= stored_n,
                stored_n == stored@.len(),
                message@ == joined(stored.deep_view().subrange(0, q as int)),
            decreases stored_n - q,
        {
            if q > 0 {
                message.append("\n");
            }
            message.append(stored[q].as_str());
            proof {
                let dv = stored.deep_view();
                if q == 0 {
                    assert(dv.subrange(0, 1) =~= seq![dv[0]]);
                    assert(joined(dv.subrange(0, 1)) == dv[0]);
                } else {
                    assert(dv.subrange(0, q as int + 1).drop_last() =~= dv.subrange(0, q as int));
                    assert(dv.subrange(0, q as int + 1).last() == dv[q as int]);
                }
            }
            q = q + 1;
        }
        proof {
            assert(stored.deep_view().subrange(0, stored_n as int) =~= stored.deep_view());
        }
        if error_count > 10 {
            message.append("\n");
            message.append("And ");
            push_decimal(&mut message, error_count - 10);
            message.append(" more errors in .env file");
        }
        Err(
            SimpleEnvError {
                kind: String::from_str("LinesError"),
                message,
                list: Some(list),
            },
        )
    }
}

/// Parses the raw lines of the default environment file into a pair list;
/// the unverified shell reads the file and hands its lines in.
pub fn to_vec(lines: &Vec<Result<String, String>>) -> (r: Result<
    Vec<(String, String)>,
    SimpleEnvError,
>)
    ensures
        parse_post(lines@, r),
{
    parse(lines)
}

/// Parses raw lines as [`parse`] does and also yields the pairs that are to
/// be promoted into environment variables: every pair on success, the
/// partial list on a content failure (later valid declarations are not
/// punished by earlier malformed ones), and none on an I/O failure.
pub fn to_env(lines: &Vec<Result<String, String>>) -> (r: (
    Vec<(String, String)>,
    Result<(), SimpleEnvError>,
))
    ensures
        ({
            let out = outcome_of(line_views(lines@));
            match out {
                Outcome::Pairs(ps) => r.0.deep_view() == ps && r.1 is Ok,
                Outcome::IoFailure(m) => {
                    &&& r.0.deep_view() == Seq::<(Seq<char>, Seq<char>)>::empty()
                    &&& match r.1 {
                        Err(e) => e.kind@ == ("io")@ && e.message@ == m && e.list is None,
                        Ok(_) => false,
                    }
                },
                Outcome::ContentFailure(rep, ps) => {
                    &&& r.0.deep_view() == ps
                    &&& match r.1 {
                        Err(e) => {
                            &&& e.kind@ == ("LinesError")@
                            &&& e.message@ == rep
                            &&& match e.list {
                                Some(l) => l.deep_view() == ps,
                                None => false,
                            }
                        },
                        Ok(_) => false,
                    }
                },
            }
        }),
{
    match parse(lines) {
        Ok(list) => (list, Ok(())),
        Err(e) => {
            let promote = match &e.list {
                Some(l) => clone_pairs(l),
                None => Vec::new(),
            };
            proof {
                if e.list is None {
                    assert(promote.deep_view() =~= Seq::<(Seq<char>, Seq<char>)>::empty());
                }
            }
            (promote, Err(e))
        },
    }
}

/// An element-wise copy whose ghost image is the same pair sequence.
fn clone_pairs(list: &Vec<(String, String)>) -> (r: Vec<(String, String)>)
    ensures
        r.deep_view() == list.deep_view(),
{
    let mut r: Vec<(String, String)> = Vec::new();
    let n = list.len();
    let mut k: usize = 0;
    while k < n
        invariant
            0 <= k <= n,
            n == list@.len(),
            r.deep_view() == list.deep_view().subrange(0, k as int),
        decreases n - k,
    {
        let ghost old_dv = r.deep_view();
        r.push((list[k].0.clone(), list[k].1.clone()));
        proof {
            assert(r.deep_view() =~= old_dv.push(list.deep_view()[k as int]));
            assert(list.deep_view().subrange(0, k as int + 1) =~= old_dv.push(
                list.deep_view()[k as int],
            ));
        }
        k = k + 1;
    }
    proof {
        assert(list.deep_view().subrange(0, n as int) =~= list.deep_view());
    }
    r
}

/// Parses the raw lines of a named file into a pair list; the error is
/// wrapped for callers that box it. The unverified shell reads the file.
pub fn file_to_vec(lines: &Vec<Result<String, String>>) -> (r: Result<
    Vec<(String, String)>,
    SimpleEnvErrorWrapper,
>)
    ensures
        ({
            let inner = match r {
                Ok(pairs) => Ok(pairs),
                Err(w) => Err(w.0),
            };
            parse_post(lines@, inner)
        }),
{
    match parse(lines) {
        Ok(pairs) => Ok(pairs),
        Err(e) => Err(SimpleEnvErrorWrapper::from(e)),
    }
}

} // verus!
