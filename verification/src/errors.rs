//! The error carried out of a parse: a category tag, a human-readable
//! message, and — for content failures — the pairs that still parsed.

use vstd::prelude::*;

verus! {

/// Why a parse failed. `kind` is `"io"` where a line could not be read at
/// all (fatal, no partial list) and `"LinesError"` where one or more lines
/// were malformed; `message` carries the per-line diagnostics; `list` holds
/// every pair that parsed despite the failures, so a caller may proceed with
/// partial data.
#[derive(Debug)]
pub struct SimpleEnvError {
    pub kind: String,
    pub message: String,
    pub list: Option<Vec<(String, String)>>,
}

impl SimpleEnvError {
    /// The error an unreadable line is reported with: kind `"io"`, the given
    /// message, and no partial list.
    pub fn io_error(message: String) -> (e: SimpleEnvError)
        ensures
            e.kind@ == ("io")@,
            e.message@ == message@,
            e.list is None,
    {
        SimpleEnvError { kind: String::from_str("io"), message, list: None }
    }

    /// The `"kind: message"` rendering the error displays as.
    pub fn display_string(&self) -> (r: String)
        ensures
            r@ == self.kind@ + (": ")@ + self.message@,
    {
        let mut r = self.kind.clone();
        r.append(": ");
        r.append(self.message.as_str());
        r
    }
}

/// A newtype over [`SimpleEnvError`] for callers that box their errors; the
/// unverified shell converts it onward.
pub struct SimpleEnvErrorWrapper(pub SimpleEnvError);

impl From<SimpleEnvError> for SimpleEnvErrorWrapper {
    fn from(error: SimpleEnvError) -> (w: SimpleEnvErrorWrapper) {
        SimpleEnvErrorWrapper(error)
    }
}

impl vstd::std_specs::convert::FromSpecImpl<SimpleEnvError> for SimpleEnvErrorWrapper {
    open spec fn obeys_from_spec() -> bool {
        true
    }

    open spec fn from_spec(error: SimpleEnvError) -> SimpleEnvErrorWrapper {
        SimpleEnvErrorWrapper(error)
    }
}

} // verus!
