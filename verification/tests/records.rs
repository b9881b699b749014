use c2rust_transpile::diagnostics::{
    capture_stderr, format_record, init, start_capture, take_captured, take_last_panic_message,
    Capture, CapturedRecord, Diagnostic, Level, LevelFilter, PanicMessage,
};
use c2rust_transpile::errors::{
    ClangAstParseErrorKind, Context, DisplaySrcSpan, TranslationError, TranslationErrorKind,
};

fn record(message: &str) -> CapturedRecord {
    CapturedRecord {
        level: Level::Warn,
        target: "clang-ast".to_string(),
        message: message.to_string(),
    }
}

#[test]
fn diagnostics_have_names() {
    for (d, name) in [
        (Diagnostic::All, "all"),
        (Diagnostic::Comments, "comments"),
        (Diagnostic::ClangAst, "clang-ast"),
    ] {
        assert_eq!(d.name(), name);
        assert_eq!(Diagnostic::from_name(name), Some(d));
    }
    assert_eq!(Diagnostic::from_name("clang_ast"), None);
}

#[test]
fn warnings_are_filtered() {
    let plain = init(vec![], LevelFilter::Warn);
    assert!(plain.shows(Level::Warn, "clang-ast"));
    assert!(!plain.shows(Level::Warn, "comments"));
    assert!(!plain.shows(Level::Warn, "all"));
    assert!(plain.shows(Level::Warn, "c2rust_transpile::translator"));
    let comments = init(vec![Diagnostic::Comments], LevelFilter::Warn);
    assert!(comments.shows(Level::Warn, "comments"));
    assert!(comments.shows(Level::Warn, "clang-ast"));
    let all = init(vec![Diagnostic::All], LevelFilter::Warn);
    assert!(all.shows(Level::Warn, "comments"));
}

#[test]
fn records_are_filtered_by_level() {
    let levels = [Level::Error, Level::Warn, Level::Info, Level::Debug, Level::Trace];
    let filters = [
        LevelFilter::Off,
        LevelFilter::Error,
        LevelFilter::Warn,
        LevelFilter::Info,
        LevelFilter::Debug,
        LevelFilter::Trace,
    ];
    for (n, filter) in filters.into_iter().enumerate() {
        let settings = init(vec![], filter);
        let shown = levels.into_iter().filter(|l| settings.shows(*l, "clang-ast")).count();
        assert_eq!(shown, n);
        assert!(!settings.shows(Level::Error, "comments"));
    }
}

#[test]
fn records_are_formatted() {
    assert_eq!(
        format_record(Level::Warn, "clang-ast", "odd node"),
        "\x1B[33mwarning:\x1B[0m odd node [-Wclang-ast]"
    );
    assert_eq!(format_record(Level::Error, "a::b", "bad"), "\x1B[31merror:\x1B[0m bad");
    assert_eq!(format_record(Level::Info, "", "x"), "\x1B[37minfo:\x1B[0m x");
    assert_eq!(format_record(Level::Debug, "", "x"), "\x1B[37mdebug:\x1B[0m x");
    assert_eq!(format_record(Level::Trace, "", "x"), "\x1B[37mtrace:\x1B[0m x");
}

#[test]
fn capture_keeps_enabled_records() {
    let mut capture = Capture::idle();
    capture.log(true, record("before"));
    assert!(take_captured(&mut capture).is_empty());
    start_capture(&mut capture);
    capture.log(true, record("one"));
    capture.log(false, record("two"));
    capture.log(true, record("three"));
    let got: Vec<String> = take_captured(&mut capture).into_iter().map(|r| r.message).collect();
    assert_eq!(got, vec!["one".to_string(), "three".to_string()]);
    capture.log(true, record("behind"));
    assert!(take_captured(&mut capture).is_empty());
}

#[test]
fn last_panic_message_is_taken_once() {
    let mut last = PanicMessage::none();
    assert_eq!(take_last_panic_message(&mut last), None);
    last.record("one".to_string());
    last.record("two".to_string());
    assert_eq!(take_last_panic_message(&mut last), Some("two".to_string()));
    assert_eq!(take_last_panic_message(&mut last), None);
}

#[test]
fn stderr_is_decoded() {
    assert_eq!(capture_stderr(7, "h\u{e9}".as_bytes()), (7, "h\u{e9}".to_string()));
    assert_eq!(capture_stderr((), &[b'a', 0xff, b'b']), ((), "a\u{fffd}b".to_string()));
}

#[test]
fn errors_carry_kind_cause_and_places() {
    let e = TranslationError::generic("no luck")
        .add_loc(Some(DisplaySrcSpan { text: "a.c:1:2".to_string() }))
        .add_loc(None)
        .add_loc(Some(DisplaySrcSpan { text: "b.c:3:4".to_string() }));
    assert_eq!(e.kind(), TranslationErrorKind::Generic);
    assert_eq!(e.cause().map(|s| s.as_str()), Some("no luck"));
    assert_eq!(e.render("-->", None), "no luck\n--> a.c:1:2\n--> b.c:3:4\n");
}

#[test]
fn errors_show_their_kind() {
    let old = TranslationError::from_kind(TranslationErrorKind::OldLLVMSimd);
    assert_eq!(
        old.render("-->", Some(6)),
        "SIMD intrinsics require LLVM 7 or newer. Please build C2Rust against a newer LLVM version.\n"
    );
    assert_eq!(old.render("-->", Some(7)), "\n");
    assert_eq!(old.render("-->", None), "\n");
    let invalid = TranslationError::new(
        Some(DisplaySrcSpan { text: "x.c".to_string() }),
        Context {
            kind: TranslationErrorKind::InvalidClangAst(ClangAstParseErrorKind { number: 3 }),
            cause: Some("why".to_string()),
        },
    );
    assert_eq!(
        invalid.render("@", None),
        "why\nExported Clang AST was invalid. Check warnings above for unimplemented features.\n@ x.c\n"
    );
    assert_eq!(
        TranslationErrorKind::VaCopyNotImplemented.message(None),
        "Rust does not yet support a C-compatible va_copy which is required to translate this function. See https://github.com/rust-lang/rust/pull/59625"
    );
    assert_eq!(TranslationErrorKind::Generic.message(Some(3)), "");
}

#[test]
fn places_are_shown_with_an_arrow() {
    let e = TranslationError::generic("x")
        .add_loc(Some(DisplaySrcSpan { text: "a.c".to_string() }));
    let shown = e.display(None);
    assert!(shown.starts_with("x\n"));
    assert!(shown.contains("-->"));
    assert!(shown.ends_with(" a.c\n"));
}
