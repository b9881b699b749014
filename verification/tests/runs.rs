use c2rust_transpile::batch::{
    transpile_batch_with_results, CapturedLogRecord, FileRun,
};
use c2rust_transpile::crates::ExternCrate;
use c2rust_transpile::diagnostics::{CapturedRecord, Level};
use c2rust_transpile::paths::SourcePath;
use c2rust_transpile::session::{
    collect_results, FileOutput, LinkAction, LinkCmd, LinkOutcome, Session, SessionEnd,
};
use c2rust_transpile::single::{
    FileOutcome, Phase, PhaseTimings, SingleAction, SingleEvent, SingleRun,
};
use c2rust_transpile::tools::{
    create_temp_compile_commands, get_extra_args_macos, invoke_postprocess, postprocess_args,
    with_user_args, RefactorStep, Transform,
};

fn file(module: &str, pragmas: &[(&str, &[&str])], crates: &[ExternCrate]) -> Option<FileOutput> {
    Some(FileOutput {
        module: SourcePath::parse(module),
        pragmas: pragmas
            .iter()
            .map(|(k, vs)| (k.to_string(), vs.iter().map(|v| v.to_string()).collect()))
            .collect(),
        crates: crates.to_vec(),
    })
}

fn pair(a: &str, b: &str) -> (String, String) {
    (a.to_string(), b.to_string())
}

#[test]
fn results_are_summed_up() {
    let outcome = collect_results(vec![
        file("src/b.rs", &[("feature", &["z", "a"]), ("allow", &["x"])], &[ExternCrate::Libc]),
        None,
        file(
            "src/a.rs",
            &[("feature", &["a", "m"])],
            &[ExternCrate::Libc, ExternCrate::C2RustBitfields],
        ),
    ]);
    let modules: Vec<String> = outcome.modules.iter().map(|m| m.to_text()).collect();
    assert_eq!(modules, vec!["src/b.rs".to_string(), "src/a.rs".to_string()]);
    assert!(outcome.modules_skipped);
    assert_eq!(
        outcome.pragmas,
        vec![
            pair("allow", "x"),
            pair("feature", "a"),
            pair("feature", "m"),
            pair("feature", "z"),
        ]
    );
    assert_eq!(outcome.crates, vec![ExternCrate::C2RustBitfields, ExternCrate::Libc]);
    let nothing = collect_results(vec![]);
    assert!(!nothing.modules_skipped && nothing.modules.is_empty() && nothing.pragmas.is_empty());
}

fn outcome(skipped: bool) -> LinkOutcome {
    LinkOutcome {
        modules: vec![SourcePath::parse("src/a.rs")],
        modules_skipped: skipped,
        pragmas: vec![pair("k", "v")],
        crates: vec![ExternCrate::Libc],
    }
}

fn link(top_level: bool) -> LinkCmd {
    LinkCmd {
        output: Some("out.so".to_string()),
        top_level,
        files: vec![SourcePath::parse("/p/a.c")],
    }
}

#[test]
fn sessions_emit_members_and_keep_the_top_level() {
    let mut s = Session::new();
    assert_eq!(s.finish(true), SessionEnd::NothingToDo);
    match s.add_link(true, "lib_a".to_string(), link(false), outcome(false)) {
        LinkAction::EmitMember(config) => {
            assert_eq!(config.crate_name, "lib_a");
            assert_eq!(config.link_cmd.output.as_deref(), Some("out.so"));
            assert_eq!(config.link_cmd.files[0].to_text(), "/p/a.c");
            assert_eq!(config.pragmas, vec![pair("k", "v")]);
            assert_eq!(config.modules.len(), 1);
            assert_eq!(config.crates, vec![ExternCrate::Libc]);
        }
        other => panic!("{:?}", other),
    }
    assert!(matches!(
        s.add_link(true, "top".to_string(), link(true), outcome(false)),
        LinkAction::Continue
    ));
    assert_eq!(s.workspace_members, vec!["lib_a".to_string()]);
    assert_eq!(s.top_level.as_ref().map(|c| c.crate_name.as_str()), Some("top"));
    assert_eq!(s.transpiled_modules.len(), 2);
    assert_eq!(s.finish(true), SessionEnd::EmitBuildFiles);
    assert_eq!(s.finish(false), SessionEnd::CheckBinaries);
}

#[test]
fn sessions_stop_where_a_file_was_skipped() {
    let mut s = Session::new();
    assert!(matches!(
        s.add_link(true, "a".to_string(), link(false), outcome(true)),
        LinkAction::Stop
    ));
    assert!(s.workspace_members.is_empty());
    assert!(matches!(
        s.add_link(false, "a".to_string(), link(false), outcome(true)),
        LinkAction::Continue
    ));
    assert!(s.top_level.is_none());
}

fn single(overwrite: bool, fail: bool, no_fmt: bool) -> SingleRun {
    SingleRun {
        input: SourcePath::parse("/p/a-b.c"),
        output: SourcePath::parse("/o/src/a_b.rs"),
        overwrite_existing: overwrite,
        fail_on_error: fail,
        disable_rustfmt: no_fmt,
    }
}

fn looked(output_exists: bool, input_exists: bool) -> SingleEvent {
    SingleEvent::Looked { output_exists, input_exists }
}

fn message(action: SingleAction) -> String {
    match action {
        SingleAction::GiveUp(m) => m,
        SingleAction::Convert(m) => m,
        SingleAction::Panic(m) => m,
        SingleAction::WriteDeclMap(p) => p.to_text(),
        SingleAction::WriteOutput(p) => p.to_text(),
        SingleAction::Format(p) => p.to_text(),
        other => panic!("{:?}", other),
    }
}

#[test]
fn files_are_skipped() {
    let (phase, action) = single(false, false, false).step(Phase::Start, &looked(true, true));
    assert_eq!(phase, Phase::Ended(FileOutcome::Skipped));
    assert_eq!(message(action), "Skipping existing file /o/src/a_b.rs");
    let (phase, action) = single(true, false, false).step(Phase::Start, &looked(true, false));
    assert_eq!(phase, Phase::Ended(FileOutcome::Skipped));
    assert_eq!(message(action), "Input C file /p/a-b.c does not exist, skipping!");
}

#[test]
fn files_are_translated_step_by_step() {
    let run = single(true, true, false);
    let (phase, action) = run.step(Phase::Start, &looked(true, true));
    assert!(matches!(action, SingleAction::Export));
    let (phase, action) = run.step(phase, &SingleEvent::Exported);
    assert_eq!(message(action), "Transpiling a-b.c");
    let (phase, action) = run.step(phase, &SingleEvent::Converted { invalid_ast: false });
    assert!(matches!(action, SingleAction::Translate));
    let (phase, action) = run.step(phase, &SingleEvent::Translated { has_decl_map: true });
    assert_eq!(phase, Phase::WritingDeclMap);
    assert_eq!(message(action), "/o/src/a_b.c_decls.json");
    let (phase, action) = run.step(phase, &SingleEvent::DeclMapWritten);
    assert_eq!(message(action), "/o/src/a_b.rs");
    let (phase, action) = run.step(phase, &SingleEvent::OutputWritten);
    assert_eq!(phase, Phase::Formatting);
    assert_eq!(message(action), "/o/src/a_b.rs");
    let (phase, action) = run.step(phase, &SingleEvent::Formatted);
    assert_eq!(phase, Phase::Ended(FileOutcome::Transpiled));
    assert!(matches!(action, SingleAction::Finish));
    let (phase, _) = single(true, true, true).step(Phase::Writing, &SingleEvent::OutputWritten);
    assert_eq!(phase, Phase::Ended(FileOutcome::Transpiled));
    let (phase, _) =
        run.step(Phase::Translating, &SingleEvent::Translated { has_decl_map: false });
    assert_eq!(phase, Phase::Writing);
}

#[test]
fn files_fail() {
    let run = single(false, true, false);
    let (phase, action) =
        run.step(Phase::Exporting, &SingleEvent::ExportFailed("boom".to_string()));
    assert_eq!(phase, Phase::Ended(FileOutcome::ExportFailed));
    assert_eq!(message(action), "Error: boom. Skipping /p/a-b.c; is it well-formed C?");
    let (phase, action) = run.step(Phase::Converting, &SingleEvent::Converted { invalid_ast: true });
    assert_eq!(phase, Phase::Ended(FileOutcome::Panicked));
    assert_eq!(message(action), "Clang AST was invalid");
    let (phase, _) = single(false, false, false)
        .step(Phase::Converting, &SingleEvent::Converted { invalid_ast: true });
    assert_eq!(phase, Phase::Translating);
}

fn file_run(outcome: FileOutcome, panic_message: Option<&str>) -> FileRun {
    FileRun {
        file: "a.c".to_string(),
        outcome,
        panic_message: panic_message.map(|m| m.to_string()),
        records: vec![CapturedRecord {
            level: Level::Warn,
            target: "t".to_string(),
            message: "m".to_string(),
        }],
        captured_stderr: "err".to_string(),
        timings: PhaseTimings { ast_export_ns: 1, translate_ns: 2, total_ns: 4 },
    }
}

#[test]
fn batches_report_every_file() {
    let results = transpile_batch_with_results(&[
        file_run(FileOutcome::Transpiled, None),
        file_run(FileOutcome::Skipped, Some("stale")),
        file_run(FileOutcome::ExportFailed, None),
        file_run(FileOutcome::Panicked, Some("at x.rs:1:2")),
        file_run(FileOutcome::Panicked, None),
    ]);
    let oks: Vec<bool> = results.iter().map(|r| r.ok).collect();
    assert_eq!(oks, vec![true, true, false, false, false]);
    let panics: Vec<Option<&str>> = results.iter().map(|r| r.panic_message.as_deref()).collect();
    assert_eq!(
        panics,
        vec![None, None, None, Some("at x.rs:1:2"), Some("(panic message not captured)")]
    );
    let times: Vec<(u64, u64, u64)> = results
        .iter()
        .map(|r| (r.phase_timings.ast_export_ns, r.phase_timings.translate_ns, r.phase_timings.total_ns))
        .collect();
    assert_eq!(times, vec![(1, 2, 4), (0, 0, 4), (1, 0, 4), (0, 0, 4), (0, 0, 4)]);
    assert_eq!(results[0].file, "a.c");
    assert_eq!(results[0].captured_stderr, "err");
    assert_eq!(results[0].log_records.len(), 1);
    assert_eq!(results[0].log_records[0].level, "warning");
    assert_eq!(results[0].log_records[0].message, "m");
    assert_eq!(PhaseTimings::default().total_ns, 0);
}

#[test]
fn levels_are_rendered_as_text() {
    for (level, text) in [
        (Level::Error, "error"),
        (Level::Warn, "warning"),
        (Level::Info, "info"),
        (Level::Debug, "debug"),
        (Level::Trace, "trace"),
    ] {
        let record = CapturedRecord { level, target: "a".to_string(), message: "b".to_string() };
        let rendered = CapturedLogRecord::from(&record);
        assert_eq!(rendered.level, text);
        assert_eq!((rendered.target.as_str(), rendered.message.as_str()), ("a", "b"));
    }
}

#[test]
fn files_compile_by_themselves() {
    let commands = create_temp_compile_commands(&["/p/a.c".to_string(), "/p/b.c".to_string()]);
    assert_eq!(commands.len(), 2);
    assert_eq!(commands[1].directory, ".");
    assert_eq!(commands[1].file, "/p/b.c");
    assert_eq!(commands[1].arguments, vec!["clang".to_string(), "/p/b.c".to_string()]);
    assert!(commands[1].command.is_none() && commands[1].output.is_none());
}

#[test]
fn macos_needs_extra_arguments() {
    assert!(get_extra_args_macos(false, false, "").is_empty());
    assert_eq!(get_extra_args_macos(true, true, ""), vec!["-fno-blocks".to_string()]);
    assert_eq!(
        get_extra_args_macos(true, false, "/sdk\n"),
        vec!["-isystem".to_string(), "/sdk/usr/include".to_string(), "-fno-blocks".to_string()]
    );
    assert_eq!(
        with_user_args(vec!["a".to_string()], &["b".to_string()]),
        vec!["a".to_string(), "b".to_string()]
    );
}

#[test]
fn refactoring_goes_step_by_step() {
    let first = RefactorStep::CheckCrate.next(true);
    assert_eq!(first, Ok(RefactorStep::Run(Transform::RenameUnnamed)));
    let second = RefactorStep::Run(Transform::RenameUnnamed).next(true);
    assert_eq!(second, Ok(RefactorStep::Run(Transform::ReorganizeDefinitions)));
    let third = RefactorStep::Run(Transform::ReorganizeDefinitions).next(true);
    assert_eq!(third, Ok(RefactorStep::Done));
    assert_eq!(RefactorStep::CheckCrate.next(false), Err("Crate does not compile.".to_string()));
    assert_eq!(
        RefactorStep::Run(Transform::RenameUnnamed).next(false),
        Err("Refactoring failed. Please fix errors above and re-run:\n    c2rust refactor --cargo --rewrite-mode inplace rename_unnamed".to_string())
    );
    assert_eq!(Transform::ReorganizeDefinitions.args()[3], "reorganize_definitions");
}

#[test]
fn the_postprocessor_is_found() {
    assert_eq!(invoke_postprocess(true, ""), Ok("c2rust-postprocess".to_string()));
    assert_eq!(
        invoke_postprocess(false, "/repo/target/debug/c2rust"),
        Ok("/repo/c2rust-postprocess/c2rust-postprocess".to_string())
    );
    assert_eq!(invoke_postprocess(false, ""), Err("no parent of ".to_string()));
    assert_eq!(invoke_postprocess(false, "c2rust"), Err("no grandparent of c2rust".to_string()));
    assert_eq!(
        invoke_postprocess(false, "/usr/bin/c2rust"),
        Err("/usr/bin/c2rust not in `target/$profile/` and c2rust-postprocess not in $PATH".to_string())
    );
    assert_eq!(
        invoke_postprocess(false, "target/debug/c2rust"),
        Ok("c2rust-postprocess/c2rust-postprocess".to_string())
    );
    assert_eq!(
        postprocess_args("lib.rs"),
        vec!["--update-rust".to_string(), "lib.rs".to_string()]
    );
}
