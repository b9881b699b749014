//! The errors of a translation: what went wrong, why, and where, and how that
//! is shown.

use crate::text::{push_text, string_of};
use colored::Colorize;
use vstd::prelude::*;

verus! {

/// Which part of an exported syntax tree did not parse, by the number that the
/// tree reader gives it.
#[derive(Clone, Copy, PartialEq, Eq, Structural, Debug)]
pub struct ClangAstParseErrorKind {
    pub number: u32,
}

/// What kind of failure an error reports.
#[derive(Clone, Copy, PartialEq, Eq, Structural, Debug)]
pub enum TranslationErrorKind {
    /// Nothing more specific than its cause.
    Generic,
    /// Not enough SIMD intrinsics are available in LLVM before 7.
    OldLLVMSimd,
    /// There is no C-compatible `va_copy` in Rust.
    VaCopyNotImplemented,
    /// The exported Clang AST was not valid.
    InvalidClangAst(ClangAstParseErrorKind),
}

/// A place in a source file, as it is printed.
#[derive(Clone, Debug)]
pub struct DisplaySrcSpan {
    pub text: String,
}

/// A kind of failure together with the message of what caused it.
#[derive(Clone, Debug)]
pub struct Context {
    pub kind: TranslationErrorKind,
    pub cause: Option<String>,
}

/// A failure to translate something, with the places that it concerns.
#[derive(Clone, Debug)]
pub struct TranslationError {
    loc: Vec<DisplaySrcSpan>,
    inner: Context,
}

pub type TranslationResult<T> = Result<T, TranslationError>;

/// What a [`TranslationError`] says.
#[verifier::ext_equal]
pub struct ErrorView {
    pub locs: Seq<Seq<char>>,
    pub kind: TranslationErrorKind,
    pub cause: Option<Seq<char>>,
}

/// The text of an optional string.
pub open spec fn opt_text(s: Option<String>) -> Option<Seq<char>> {
    match s {
        Some(t) => Some(t@),
        None => None,
    }
}

/// The texts of a list of places.
pub open spec fn span_texts(spans: Seq<DisplaySrcSpan>) -> Seq<Seq<char>> {
    Seq::new(spans.len(), |i: int| spans[i].text@)
}

impl View for TranslationError {
    type V = ErrorView;

    closed spec fn view(&self) -> ErrorView {
        ErrorView {
            locs: span_texts(self.loc@),
            kind: self.inner.kind,
            cause: opt_text(self.inner.cause),
        }
    }
}

/// The error without a place that has this kind and cause.
pub open spec fn error_view(kind: TranslationErrorKind, cause: Option<Seq<char>>) -> ErrorView {
    ErrorView { locs: Seq::empty(), kind, cause }
}

/// The generic error with this message.
pub open spec fn generic_error(msg: Seq<char>) -> ErrorView {
    error_view(TranslationErrorKind::Generic, Some(msg))
}

/// `err` with one more place, if there is one to add.
pub open spec fn with_loc(err: ErrorView, loc: Option<Seq<char>>) -> ErrorView {
    match loc {
        Some(text) => ErrorView { locs: err.locs.push(text), ..err },
        None => err,
    }
}

/// The text of an optional place.
pub open spec fn opt_span(loc: Option<DisplaySrcSpan>) -> Option<Seq<char>> {
    match loc {
        Some(span) => Some(span.text@),
        None => None,
    }
}

/// What is said about a kind of failure, given the major version of the Clang
/// that the tree came from, if that is known.
pub open spec fn kind_message(kind: TranslationErrorKind, clang_major: Option<u32>) -> Seq<char> {
    match kind {
        TranslationErrorKind::Generic => Seq::empty(),
        TranslationErrorKind::OldLLVMSimd => match clang_major {
            Some(version) => if version < 7 {
                "SIMD intrinsics require LLVM 7 or newer. Please build C2Rust against a newer LLVM version."@
            } else {
                Seq::empty()
            },
            None => Seq::empty(),
        },
        TranslationErrorKind::VaCopyNotImplemented =>
            "Rust does not yet support a C-compatible va_copy which is required to translate this function. See https://github.com/rust-lang/rust/pull/59625"@,
        TranslationErrorKind::InvalidClangAst(_) =>
            "Exported Clang AST was invalid. Check warnings above for unimplemented features."@,
    }
}

/// One line for each place: the arrow, a space, the place.
pub open spec fn loc_lines(arrow: Seq<char>, locs: Seq<Seq<char>>) -> Seq<char>
    decreases locs.len(),
{
    if locs.len() == 0 {
        Seq::empty()
    } else {
        loc_lines(arrow, locs.drop_last()) + arrow + " "@ + locs.last() + "\n"@
    }
}

/// An error as it is shown: a line with its cause, a line about its kind
/// unless that is generic, and a line for each place.
pub open spec fn rendering(
    err: ErrorView,
    arrow: Seq<char>,
    clang_major: Option<u32>,
) -> Seq<char> {
    let cause = match err.cause {
        Some(msg) => msg + "\n"@,
        None => Seq::empty(),
    };
    let kind = match err.kind {
        TranslationErrorKind::Generic => Seq::empty(),
        _ => kind_message(err.kind, clang_major) + "\n"@,
    };
    cause + kind + loc_lines(arrow, err.locs)
}

/// Calls `blue` of the `colored` crate on the arrow and formats the result.
/// Whether that adds the colour depends on the terminal and the environment:
/// the arrow comes back as it is, or between the codes for blue and for reset.
#[verifier::external_body]
fn blue_arrow() -> (res: String)
    ensures
        res@ == "-->"@ || res@ == "\u{1b}[34m-->\u{1b}[0m"@,
{
    "-->".blue().to_string()
}

impl TranslationErrorKind {
    /// What is said about this kind of failure; `clang_major` is the major
    /// version of the Clang that the tree came from, if that is known.
    pub fn message(&self, clang_major: Option<u32>) -> (res: String)
        ensures
            res@ == kind_message(*self, clang_major),
    {
        match self {
            TranslationErrorKind::Generic => String::new(),
            TranslationErrorKind::OldLLVMSimd => {
                if let Some(version) = clang_major {
                    if version < 7 {
                        return "SIMD intrinsics require LLVM 7 or newer. Please build C2Rust against a newer LLVM version.".to_owned();
                    }
                }
                String::new()
            },
            TranslationErrorKind::VaCopyNotImplemented => {
                "Rust does not yet support a C-compatible va_copy which is required to translate this function. See https://github.com/rust-lang/rust/pull/59625".to_owned()
            },
            TranslationErrorKind::InvalidClangAst(_) => {
                "Exported Clang AST was invalid. Check warnings above for unimplemented features.".to_owned()
            },
        }
    }
}

impl TranslationError {
    /// The kind of failure.
    pub fn kind(&self) -> (res: TranslationErrorKind)
        ensures
            res == self@.kind,
    {
        self.inner.kind
    }

    /// The message of what caused the failure, if there is one.
    pub fn cause(&self) -> (res: Option<&String>)
        ensures
            match res {
                Some(msg) => self@.cause == Some(msg@),
                None => self@.cause is None,
            },
    {
        self.inner.cause.as_ref()
    }

    /// An error from a context, at a place if one is given.
    pub fn new(loc: Option<DisplaySrcSpan>, inner: Context) -> (res: Self)
        ensures
            res@ == with_loc(error_view(inner.kind, opt_text(inner.cause)), opt_span(loc)),
    {
        TranslationError::from_context(inner).add_loc(loc)
    }

    /// A generic error with a message.
    pub fn generic(msg: &str) -> (res: Self)
        ensures
            res@ == generic_error(msg@),
    {
        TranslationError::from_context(
            Context { kind: TranslationErrorKind::Generic, cause: Some(msg.to_owned()) },
        )
    }

    /// An error of the given kind, with no cause.
    pub fn from_kind(kind: TranslationErrorKind) -> (res: Self)
        ensures
            res@ == error_view(kind, None),
    {
        TranslationError::from_context(Context { kind, cause: None })
    }

    /// An error from a context, at no place.
    pub fn from_context(inner: Context) -> (res: Self)
        ensures
            res@ == error_view(inner.kind, opt_text(inner.cause)),
    {
        let res = TranslationError { loc: Vec::new(), inner };
        assert(res@.locs == Seq::<Seq<char>>::empty());
        res
    }

    /// The error with one more place, if there is one to add.
    pub fn add_loc(self, loc: Option<DisplaySrcSpan>) -> (res: Self)
        ensures
            res@ == with_loc(self@, opt_span(loc)),
    {
        let mut res = self;
        if let Some(span) = loc {
            let ghost before = res.loc@;
            res.loc.push(span);
            assert(span_texts(res.loc@) == span_texts(before).push(span.text@));
        }
        res
    }

    /// The error as text, with the given arrow before each place.
    pub fn render(&self, arrow: &str, clang_major: Option<u32>) -> (res: String)
        ensures
            res@ == rendering(self@, arrow@, clang_major),
    {
        let mut out: Vec<char> = Vec::new();
        if let Some(msg) = &self.inner.cause {
            push_text(&mut out, msg.as_str());
            push_text(&mut out, "\n");
        }
        let ghost cause_part = out@;
        match self.inner.kind {
            TranslationErrorKind::Generic => {},
            _ => {
                let about = self.inner.kind.message(clang_major);
                push_text(&mut out, about.as_str());
                push_text(&mut out, "\n");
            },
        }
        let ghost head = out@;
        let ghost locs = self@.locs;
        let mut i: usize = 0;
        assert(locs.take(0).len() == 0);
        while i < self.loc.len()
            invariant
                i <= self.loc@.len(),
                locs == span_texts(self.loc@),
                out@ == head + loc_lines(arrow@, locs.take(i as int)),
            decreases self.loc@.len() - i,
        {
            assert(locs.take(i + 1).drop_last() == locs.take(i as int));
            push_text(&mut out, arrow);
            push_text(&mut out, " ");
            push_text(&mut out, self.loc[i].text.as_str());
            push_text(&mut out, "\n");
            i += 1;
            assert(out@ == head + loc_lines(arrow@, locs.take(i as int)));
        }
        assert(locs.take(locs.len() as int) == locs);
        assert(out@ == rendering(self@, arrow@, clang_major));
        string_of(out.as_slice())
    }

    /// The error as it is shown to a user, with a blue arrow before each place
    /// where colours are on.
    pub fn display(&self, clang_major: Option<u32>) -> (res: String)
        ensures
            res@ == rendering(self@, "-->"@, clang_major) || res@ == rendering(
                self@,
                "\u{1b}[34m-->\u{1b}[0m"@,
                clang_major,
            ),
    {
        let arrow = blue_arrow();
        self.render(arrow.as_str(), clang_major)
    }
}

/// An error is shown as its cause on a line of its own, what is said about its
/// kind unless that is generic, and each of its places on a line behind an arrow,
/// in the order in which they were added.
pub proof fn law_errors_are_shown_line_by_line(
    err: ErrorView,
    loc: Seq<char>,
    arrow: Seq<char>,
    clang_major: Option<u32>,
)
    ensures
        rendering(with_loc(err, Some(loc)), arrow, clang_major) == rendering(
            err,
            arrow,
            clang_major,
        ) + (arrow + " "@ + loc + "\n"@),
        with_loc(err, None) == err,
        rendering(error_view(err.kind, err.cause), arrow, clang_major) == (match err.cause {
            Some(message) => message + "\n"@,
            None => ""@,
        }) + (if err.kind == TranslationErrorKind::Generic {
            ""@
        } else {
            kind_message(err.kind, clang_major) + "\n"@
        }),
{
    reveal_strlit("");
    assert(""@ =~= Seq::empty());
    let more = with_loc(err, Some(loc));
    assert(more.locs.drop_last() =~= err.locs);
    assert(more.locs.last() == loc);
    assert(rendering(more, arrow, clang_major) =~= rendering(err, arrow, clang_major) + (arrow
        + " "@ + loc + "\n"@));
    let plain = error_view(err.kind, err.cause);
    assert(loc_lines(arrow, plain.locs) =~= Seq::empty());
    assert(rendering(plain, arrow, clang_major) =~= (match err.cause {
        Some(message) => message + "\n"@,
        None => ""@,
    }) + (if err.kind == TranslationErrorKind::Generic {
        ""@
    } else {
        kind_message(err.kind, clang_major) + "\n"@
    }));
}

/// A generic error has its message as its cause and no place, and is shown as
/// that message.
pub proof fn law_generic_errors_are_their_message(
    message: Seq<char>,
    arrow: Seq<char>,
    clang_major: Option<u32>,
)
    ensures
        generic_error(message).kind == TranslationErrorKind::Generic,
        generic_error(message).cause == Some(message),
        generic_error(message).locs.len() == 0,
        rendering(generic_error(message), arrow, clang_major) == message + "\n"@,
{
    assert(loc_lines(arrow, Seq::empty()) =~= Seq::empty());
    assert(rendering(generic_error(message), arrow, clang_major) =~= message + "\n"@);
}

/// What is said about each kind. Nothing is said about a generic error, and about
/// missing SIMD intrinsics only where Clang is known to be older than 7.
pub proof fn law_kinds_are_explained(kind: TranslationErrorKind, clang_major: Option<u32>)
    ensures
        kind_message(kind, clang_major) == match kind {
            TranslationErrorKind::Generic => ""@,
            TranslationErrorKind::OldLLVMSimd => match clang_major {
                Some(version) if version <= 6 =>
                    "SIMD intrinsics require LLVM 7 or newer. Please build C2Rust against a newer LLVM version."@,
                _ => ""@,
            },
            TranslationErrorKind::VaCopyNotImplemented =>
                "Rust does not yet support a C-compatible va_copy which is required to translate this function. See https://github.com/rust-lang/rust/pull/59625"@,
            TranslationErrorKind::InvalidClangAst(_) =>
                "Exported Clang AST was invalid. Check warnings above for unimplemented features."@,
        },
{
    reveal_strlit("");
    assert(""@ =~= Seq::empty());
}

} // verus!
