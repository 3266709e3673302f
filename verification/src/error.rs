//! Diagnostics carried through the pipeline: scan errors and parse errors
//! accumulate, while a runtime error is single and fatal.

use vstd::prelude::*;

verus! {

/// The phase a diagnostic belongs to, together with its message text.
#[derive(Debug, PartialEq)]
pub enum ErrorMsg {
    Scan(String),
    Parse(String),
    Runtime(String),
}

/// Mathematical model of an [`ErrorMsg`]: the message as a character sequence.
pub enum ErrorMsgView {
    Scan(Seq<char>),
    Parse(Seq<char>),
    Runtime(Seq<char>),
}

impl View for ErrorMsg {
    type V = ErrorMsgView;

    open spec fn view(&self) -> ErrorMsgView {
        match self {
            ErrorMsg::Scan(s) => ErrorMsgView::Scan(s@),
            ErrorMsg::Parse(s) => ErrorMsgView::Parse(s@),
            ErrorMsg::Runtime(s) => ErrorMsgView::Runtime(s@),
        }
    }
}

/// One diagnostic: a tagged message and the source line it arose on.
#[derive(Debug, PartialEq)]
pub struct Error {
    pub err: ErrorMsg,
    pub line: u32,
}

/// Mathematical model of an [`Error`].
pub struct ErrorView {
    pub err: ErrorMsgView,
    pub line: u32,
}

impl View for Error {
    type V = ErrorView;

    open spec fn view(&self) -> ErrorView {
        ErrorView { err: self.err@, line: self.line }
    }
}

impl Error {
    /// A diagnostic from the scanning phase.
    pub fn scan_error(msg: String, line: u32) -> (r: Self)
        ensures
            r@ == (ErrorView { err: ErrorMsgView::Scan(msg@), line }),
    {
        Self { err: ErrorMsg::Scan(msg), line }
    }

    /// A diagnostic from the parsing phase.
    pub fn parse_error(msg: String, line: u32) -> (r: Self)
        ensures
            r@ == (ErrorView { err: ErrorMsgView::Parse(msg@), line }),
    {
        Self { err: ErrorMsg::Parse(msg), line }
    }

    /// A diagnostic from the evaluation phase.
    pub fn runtime_error(msg: String, line: u32) -> (r: Self)
        ensures
            r@ == (ErrorView { err: ErrorMsgView::Runtime(msg@), line }),
    {
        Self { err: ErrorMsg::Runtime(msg), line }
    }
}

/// The errored (or not-yet-errored) state of one phase of a run.
///
/// Scanning and parsing accumulate as many diagnostics as they can;
/// evaluation stops at its first error, so the runtime variant holds
/// exactly one diagnostic and rejects additions.
#[derive(Debug, PartialEq)]
pub enum ErrorState {
    ScanErrs(Vec<Error>),
    ParseErrs(Vec<Error>),
    RuntimeErr(Error),
}

/// Mathematical model of an [`ErrorState`].
pub enum ErrorStateView {
    ScanErrs(Seq<ErrorView>),
    ParseErrs(Seq<ErrorView>),
    RuntimeErr(ErrorView),
}

impl View for ErrorState {
    type V = ErrorStateView;

    open spec fn view(&self) -> ErrorStateView {
        match self {
            ErrorState::ScanErrs(v) => ErrorStateView::ScanErrs(v@.map_values(|e: Error| e@)),
            ErrorState::ParseErrs(v) => ErrorStateView::ParseErrs(v@.map_values(|e: Error| e@)),
            ErrorState::RuntimeErr(e) => ErrorStateView::RuntimeErr(e@),
        }
    }
}

impl ErrorStateView {
    /// A state is ok while it holds no diagnostic.
    pub open spec fn is_ok(self) -> bool {
        match self {
            ErrorStateView::ScanErrs(v) => v.len() == 0,
            ErrorStateView::ParseErrs(v) => v.len() == 0,
            ErrorStateView::RuntimeErr(_) => false,
        }
    }

    /// The state after recording one more diagnostic: scan and parse
    /// states append it, while a runtime error is never appendable.
    pub open spec fn with_added(self, e: ErrorView) -> ErrorStateView {
        match self {
            ErrorStateView::ScanErrs(v) => ErrorStateView::ScanErrs(v.push(e)),
            ErrorStateView::ParseErrs(v) => ErrorStateView::ParseErrs(v.push(e)),
            ErrorStateView::RuntimeErr(r) => ErrorStateView::RuntimeErr(r),
        }
    }
}

impl ErrorState {
    /// An empty accumulator for scan diagnostics.
    pub fn new_scanner_state() -> (r: Self)
        ensures
            r@ == ErrorStateView::ScanErrs(Seq::<ErrorView>::empty()),
    {
        let r = Self::ScanErrs(vec![]);
        proof {
            assert(r@ =~= ErrorStateView::ScanErrs(Seq::<ErrorView>::empty())) by {
                assert(Seq::<Error>::empty().map_values(|e: Error| e@) =~= Seq::<
                    ErrorView,
                >::empty());
            }
        }
        r
    }

    /// An empty accumulator for parse diagnostics.
    pub fn new_parser_state() -> (r: Self)
        ensures
            r@ == ErrorStateView::ParseErrs(Seq::<ErrorView>::empty()),
    {
        let r = Self::ParseErrs(vec![]);
        proof {
            assert(r@ =~= ErrorStateView::ParseErrs(Seq::<ErrorView>::empty())) by {
                assert(Seq::<Error>::empty().map_values(|e: Error| e@) =~= Seq::<
                    ErrorView,
                >::empty());
            }
        }
        r
    }

    /// The terminal state carrying a single fatal runtime error.
    pub fn runtime_error(e: String, lineno: u32) -> (r: Self)
        ensures
            r@ == ErrorStateView::RuntimeErr(
                ErrorView { err: ErrorMsgView::Runtime(e@), line: lineno },
            ),
    {
        Self::RuntimeErr(Error::runtime_error(e, lineno))
    }

    /// Records one more diagnostic; a runtime error state is left unchanged.
    pub fn add(&mut self, e: Error)
        ensures
            final(self)@ == old(self)@.with_added(e@),
    {
        match self {
            Self::ScanErrs(v) => {
                let ghost pre = v@;
                v.push(e);
                proof {
                    assert(v@.map_values(|x: Error| x@) =~= pre.map_values(|x: Error| x@).push(
                        e@,
                    ));
                }
            },
            Self::ParseErrs(v) => {
                let ghost pre = v@;
                v.push(e);
                proof {
                    assert(v@.map_values(|x: Error| x@) =~= pre.map_values(|x: Error| x@).push(
                        e@,
                    ));
                }
            },
            Self::RuntimeErr(_) => (),
        }
    }

    /// Whether the state holds no diagnostic yet.
    pub fn is_ok(&mut self) -> (r: bool)
        ensures
            *final(self) == *old(self),
            r == old(self)@.is_ok(),
    {
        match self {
            Self::ScanErrs(v) => {
                let n = v.len();
                assert(v@.map_values(|x: Error| x@).len() == v@.len());
                n == 0
            },
            Self::ParseErrs(v) => {
                let n = v.len();
                assert(v@.map_values(|x: Error| x@).len() == v@.len());
                n == 0
            },
            Self::RuntimeErr(_) => false,
        }
    }
}


/// The textual form of one diagnostic: `[{line}]: ` and the message,
/// prefixed with its phase.
pub open spec fn render_error(e: ErrorView) -> Seq<char> {
    "["@ + crate::digits::decimal_digits(e.line as nat) + "]: "@ + (match e.err {
        ErrorMsgView::Scan(m) => "scan error: "@ + m,
        ErrorMsgView::Parse(m) => "parse error: "@ + m,
        ErrorMsgView::Runtime(m) => "runtime error: "@ + m,
    })
}

/// The textual form of a list of diagnostics: one line per diagnostic,
/// in the order they were produced.
pub open spec fn render_errors(v: Seq<ErrorView>) -> Seq<char>
    decreases v.len(),
{
    if v.len() == 0 {
        Seq::<char>::empty()
    } else {
        render_errors(v.drop_last()) + render_error(v.last()) + "\n"@
    }
}

/// The textual form of a whole error state: each accumulated diagnostic
/// on its own line, or the single runtime error.
pub open spec fn render_error_state(s: ErrorStateView) -> Seq<char> {
    match s {
        ErrorStateView::ScanErrs(v) => render_errors(v),
        ErrorStateView::ParseErrs(v) => render_errors(v),
        ErrorStateView::RuntimeErr(e) => render_error(e),
    }
}

impl Error {
    /// The diagnostic's textual form.
    pub fn render(&self) -> (r: String)
        ensures
            r@ == render_error(self@),
    {
        let mut s = String::from_str("[");
        let line_str = crate::digits::u32_to_string(self.line);
        s.append(line_str.as_str());
        s.append("]: ");
        match &self.err {
            ErrorMsg::Scan(m) => {
                s.append("scan error: ");
                s.append(m.as_str());
            },
            ErrorMsg::Parse(m) => {
                s.append("parse error: ");
                s.append(m.as_str());
            },
            ErrorMsg::Runtime(m) => {
                s.append("runtime error: ");
                s.append(m.as_str());
            },
        }
        proof {
            assert(s@ =~= render_error(self@));
        }
        s
    }
}

impl ErrorState {
    /// The state's textual form: one line per accumulated diagnostic,
    /// in the order they were produced, or the single runtime error.
    pub fn render(&self) -> (r: String)
        ensures
            r@ == render_error_state(self@),
    {
        match self {
            ErrorState::RuntimeErr(e) => e.render(),
            ErrorState::ScanErrs(v) => render_error_vec(v),
            ErrorState::ParseErrs(v) => render_error_vec(v),
        }
    }
}

/// Renders a list of diagnostics, one line each.
fn render_error_vec(v: &Vec<Error>) -> (r: String)
    ensures
        r@ == render_errors(v@.map_values(|e: Error| e@)),
{
    let ghost errs = v@.map_values(|e: Error| e@);
    let mut s = String::new();
    let mut i: usize = 0;
    proof {
        assert(errs.take(0) =~= Seq::<ErrorView>::empty());
    }
    while i < v.len()
        invariant
            0 <= i <= v@.len(),
            errs == v@.map_values(|e: Error| e@),
            s@ == render_errors(errs.take(i as int)),
        decreases v@.len() - i,
    {
        let line = v[i].render();
        s.append(line.as_str());
        s.append("\n");
        proof {
            assert(errs.take(i + 1).drop_last() =~= errs.take(i as int));
            assert(errs.take(i + 1).last() == errs[i as int]);
            assert(s@ =~= render_errors(errs.take(i + 1)));
        }
        i = i + 1;
    }
    proof {
        assert(errs.take(errs.len() as int) =~= errs);
    }
    s
}

} // verus!
