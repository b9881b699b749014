use c2rust_transpile::config::{
    can_have_output_path, get_output_path, ReplaceMode, TranslateMacros, TranspilerConfig,
};
use c2rust_transpile::crates::{ExternCrate, ExternCrateDetails};
use c2rust_transpile::diagnostics::LevelFilter;
use c2rust_transpile::kernel_idioms::KernelIdiomRules;
use c2rust_transpile::names::{char_to_ident, get_module_name, str_to_ident, str_to_ident_checked};
use c2rust_transpile::paths::{Component, SourcePath};
use c2rust_transpile::session::LinkCmd;
use c2rust_transpile::single::SingleRun;
use c2rust_transpile::tools::{formats_refactored, reorganize_definitions, run_postprocess};

fn path(s: &str) -> SourcePath {
    SourcePath::parse(s)
}

fn keywords() -> Vec<String> {
    vec!["fn".to_string(), "match".to_string()]
}

fn config() -> TranspilerConfig {
    TranspilerConfig {
        dump_untyped_context: false,
        dump_typed_context: false,
        pretty_typed_context: false,
        dump_function_cfgs: false,
        json_function_cfgs: false,
        dump_cfg_liveness: false,
        dump_structures: false,
        verbose: false,
        debug_ast_exporter: false,
        emit_c_decl_map: false,
        incremental_relooper: true,
        fail_on_multiple: false,
        filter: None,
        debug_relooper_labels: false,
        cross_checks: false,
        cross_check_backend: String::new(),
        cross_check_configs: vec![],
        prefix_function_names: None,
        translate_asm: true,
        use_c_loop_info: true,
        use_c_multiple_info: true,
        simplify_structures: true,
        panic_on_translator_failure: false,
        emit_modules: false,
        fail_on_error: false,
        replace_unsupported_decls: ReplaceMode::Nothing,
        translate_valist: true,
        overwrite_existing: false,
        reduce_type_annotations: false,
        reorganize_definitions: false,
        enabled_warnings: vec![],
        emit_no_std: false,
        output_dir: None,
        translate_const_macros: TranslateMacros::default(),
        translate_fn_macros: TranslateMacros::Never,
        disable_rustfmt: false,
        disable_refactoring: false,
        preserve_unused_functions: false,
        log_level: LevelFilter::Warn,
        edition: 2021,
        deny_unsafe_op_in_unsafe_fn: false,
        kernel_idiom_rules: KernelIdiomRules::none(),
        postprocess: false,
        emit_build_files: true,
        binaries: vec![],
        thin_binaries: false,
        c2rust_dir: None,
    }
}

/// The components of a path, written out.
fn parts(s: &str) -> Vec<String> {
    path(s)
        .components()
        .into_iter()
        .map(|c| match c {
            Component::Root => "/".to_string(),
            Component::CurDir => ".".to_string(),
            Component::ParentDir => "..".to_string(),
            Component::Normal(name) => name,
        })
        .collect()
}

#[test]
fn paths_have_components() {
    assert_eq!(parts("/a//b/./c/"), vec!["/", "a", "b", "c"]);
    assert_eq!(parts("./a/../b"), vec![".", "a", "..", "b"]);
    assert_eq!(parts("a/."), vec!["a"]);
    assert_eq!(parts("/"), vec!["/"]);
    assert_eq!(parts("/./a"), vec!["/", "a"]);
    assert!(parts("").is_empty());
}

#[test]
fn paths_keep_their_text() {
    for s in ["/", "", ".", "..", "/a/b.c", "a//b", "a/./b/", "../x/..", "./y"] {
        assert_eq!(path(s).to_text(), s);
    }
    assert_eq!(path("a//b/./c.c").with_file_name("d").to_text(), "a//b/d");
    assert_eq!(path("a//b.c/").with_extension("rs").to_text(), "a//b.rs");
    assert_eq!(path("a//b").parent().map(|p| p.to_text()), Some("a".to_string()));
    assert_eq!(path("//a").parent().map(|p| p.to_text()), Some("/".to_string()));
    assert_eq!(path("a/").join(&path("./b")).to_text(), "a/./b");
}

#[test]
fn file_names_have_stems_and_extensions() {
    let names = |s: &str| (path(s).file_name(), path(s).file_stem(), path(s).extension());
    let text = |s: &str| Some(s.to_string());
    assert_eq!(names("a/b.tar.gz"), (text("b.tar.gz"), text("b.tar"), text("gz")));
    assert_eq!(names("a/b"), (text("b"), text("b"), None));
    assert_eq!(names(".rc"), (text(".rc"), text(".rc"), None));
    assert_eq!(names("b."), (text("b."), text("b"), text("")));
    assert_eq!(names(".."), (None, None, None));
    assert_eq!(names("/"), (None, None, None));
}

#[test]
fn paths_are_taken_apart_and_joined() {
    assert_eq!(path("/a/b").parent().map(|p| p.to_text()), Some("/a".to_string()));
    assert!(path("/").parent().is_none());
    assert!(path("").parent().is_none());
    assert_eq!(path("/").pop().to_text(), "/");
    assert_eq!(path("a").pop().to_text(), "");
    assert_eq!(path("a").join(&path("b")).to_text(), "a/b");
    assert_eq!(path("a").join(&path("/b")).to_text(), "/b");
    assert_eq!(path("").join(&path("./b")).to_text(), "./b");
    assert_eq!(path("a/b.c").with_file_name("d").to_text(), "a/d");
    assert_eq!(path("a/..").with_file_name("d").to_text(), "a/../d");
    assert_eq!(path("a/b.c").with_extension("rs").to_text(), "a/b.rs");
    assert_eq!(path("a/..").with_extension("rs").to_text(), "a/..");
    assert_eq!(path("/a/b/c").strip_prefix(&path("/a")).map(|p| p.to_text()), Some("b/c".to_string()));
    assert!(path("/a/b").strip_prefix(&path("a")).is_none());
    assert_eq!(path("/a/b/c").common_ancestor(&path("/a/bc/d")).to_text(), "/a");
}

#[test]
fn identifiers_are_legal() {
    assert_eq!(char_to_ident('-'), '_');
    assert_eq!(char_to_ident('\u{e9}'), '\u{e9}');
    assert_eq!(char_to_ident('\u{2014}'), '_');
    assert_eq!(str_to_ident("a-b.c 1"), "a_b_c_1");
    assert_eq!(str_to_ident(&str_to_ident("x+y")), str_to_ident("x+y"));
    assert_eq!(str_to_ident_checked("fn", true, &keywords()), "r#fn");
    assert_eq!(str_to_ident_checked("fn", false, &keywords()), "fn");
    assert_eq!(str_to_ident_checked("fn1", true, &keywords()), "fn1");
}

#[test]
fn modules_are_named_after_files() {
    let name = |s: &str, check, keep, full| {
        get_module_name(&path(s), check, keep, full, &keywords())
    };
    let text = |s: &str| Some(s.to_string());
    assert_eq!(name("src/a-b.rs", false, false, false), text("a_b"));
    assert_eq!(name("src/a-b.rs", false, true, false), text("a_b.rs"));
    assert_eq!(name("src/a-b.rs", false, true, true), text("src/a_b.rs"));
    assert_eq!(name("src/a-b.c", false, true, false), text("a_b_c"));
    assert_eq!(name("src/match.rs", true, false, true), text("src/r#match"));
    assert_eq!(name("a//./b-c.c", false, true, true), text("a/b_c_c"));
    assert_eq!(name("a//x/b-c.c", false, true, true), text("a//x/b_c_c"));
}

#[test]
fn binaries_are_recognized() {
    let mut tcfg = config();
    tcfg.binaries = vec!["main_prog".to_string(), "other".to_string()];
    assert_eq!(TranspilerConfig::binary_name_from_path(&path("x/main-prog.c")), "main_prog");
    assert_eq!(TranspilerConfig::binary_name_from_path(&path("x/a.rs.c")), "a");
    assert!(tcfg.is_thin_or_full_binary(&path("x/main-prog.c")));
    assert!(tcfg.is_binary(&path("x/main-prog.c")));
    assert!(!tcfg.is_binary(&path("x/lib.c")));
    let modules = vec![path("src/main-prog.rs"), path("src/lib.rs")];
    assert!(!tcfg.check_if_all_binaries_used(&modules));
    assert_eq!(tcfg.unused_binaries(&modules), vec!["other".to_string()]);
    assert_eq!(
        TranspilerConfig::binary_names(&modules),
        vec!["main_prog".to_string(), "lib".to_string()]
    );
    let twice = vec![path("a/lib.rs"), path("main-prog.rs"), path("b/lib.rs")];
    let mut candidates = TranspilerConfig::candidate_names(&twice);
    candidates.sort();
    assert_eq!(candidates, vec!["lib".to_string(), "main_prog".to_string()]);
    tcfg.binaries = vec!["lib".to_string()];
    assert!(tcfg.check_if_all_binaries_used(&modules));
    tcfg.thin_binaries = true;
    assert!(!tcfg.is_binary(&path("lib.c")));
    assert!(tcfg.is_thin_or_full_binary(&path("lib.c")));
}

#[test]
fn crates_are_named_after_the_output_directory() {
    let mut tcfg = config();
    assert_eq!(tcfg.crate_name(&keywords()), "c2rust_out");
    tcfg.output_dir = Some(path("out/my-crate"));
    assert_eq!(tcfg.crate_name(&keywords()), "my_crate");
    tcfg.output_dir = Some(path("fn"));
    assert_eq!(tcfg.crate_name(&keywords()), "r#fn");
    tcfg.output_dir = Some(path(".."));
    assert_eq!(tcfg.crate_name(&keywords()), "c2rust_out");
}

#[test]
fn outputs_go_to_the_build_directory() {
    let mut tcfg = config();
    let input = path("/p/sub-dir/a-b.c");
    let build = path("/out");
    assert_eq!(get_output_path(&tcfg, &input, &path("/q"), &build).to_text(), "/p/sub-dir/a_b.rs");
    tcfg.output_dir = Some(path("/out"));
    assert_eq!(
        get_output_path(&tcfg, &input, &path("/p"), &build).to_text(),
        "/out/src/sub_dir/a_b.rs"
    );
    assert_eq!(
        get_output_path(&tcfg, &input, &path("/p"), &path("o//x/")).to_text(),
        "o//x/src/sub_dir/a_b.rs"
    );
    assert!(can_have_output_path(&tcfg, &input, &path("/p")));
    assert!(!can_have_output_path(&tcfg, &input, &path("/q")));
    assert!(!can_have_output_path(&tcfg, &input, &path("")));
    assert!(!can_have_output_path(&tcfg, &path("/p/.."), &path("/p")));
}

#[test]
fn crates_have_details() {
    let dir = path("/c2rust");
    let d = ExternCrate::C2RustAsmCasts.with_details(Some(&dir), "1.2.3");
    assert_eq!((d.name, d.ident.as_str(), d.macro_use, d.version), ("c2rust-asm-casts", "c2rust_asm_casts", true, "1.2.3"));
    assert_eq!(d.path.map(|p| p.to_text()), Some("/c2rust/c2rust-asm-casts".to_string()));
    let n = ExternCrate::NumTraits.with_details(Some(&dir), "1.2.3");
    assert_eq!((n.name, n.ident.as_str(), n.macro_use, n.version), ("num-traits", "num_traits", true, "0.2"));
    assert!(n.path.is_none());
    assert_eq!(ExternCrate::Memoffset.with_details(None, "9").version, "0.5");
    assert!(!ExternCrate::Libc.with_details(None, "9").macro_use);
    assert!(ExternCrate::C2RustBitfields.with_details(None, "9").path.is_none());
    assert_eq!(ExternCrate::F128.with_details(None, "9").name, "f128");
    let own = ExternCrateDetails::new("a-b-c", "1", false, Some(path("x")));
    assert_eq!(own.ident, "a_b_c");
    for rank in 0..6 {
        assert_eq!(ExternCrate::from_rank(rank).map(|c| c.rank()), Some(rank));
    }
    assert_eq!(ExternCrate::from_rank(6), None);
    assert_eq!(TranslateMacros::default(), TranslateMacros::Conservative);
}

#[test]
fn tools_follow_the_configuration() {
    let mut tcfg = config();
    assert!(!reorganize_definitions(&tcfg, true));
    tcfg.reorganize_definitions = true;
    assert!(reorganize_definitions(&tcfg, true));
    assert!(!reorganize_definitions(&tcfg, false));
    assert!(formats_refactored(&tcfg, true));
    assert!(!formats_refactored(&tcfg, false));
    tcfg.disable_rustfmt = true;
    assert!(!formats_refactored(&tcfg, true));
    tcfg.disable_refactoring = true;
    assert!(!reorganize_definitions(&tcfg, true));
    assert!(!run_postprocess(&tcfg, true));
    tcfg.postprocess = true;
    assert!(run_postprocess(&tcfg, true));
    assert!(!run_postprocess(&tcfg, false));
}

#[test]
fn link_commands_are_named_and_placed() {
    let mut tcfg = config();
    tcfg.output_dir = Some(path("/o/my-out"));
    let named = LinkCmd { output: Some("bin/tool.exe".to_string()), top_level: false, files: vec![] };
    assert!(named.can_be_named());
    assert_eq!(named.name(&tcfg, &keywords()), "tool");
    assert_eq!(named.build_dir(&path("/b"), "tool").to_text(), "/b/tool");
    assert_eq!(named.ancestor().to_text(), "");
    let top = LinkCmd { output: None, top_level: true, files: vec![path("/p/a.c")] };
    assert_eq!(top.name(&tcfg, &keywords()), "my_out");
    assert_eq!(top.build_dir(&path("/b"), "my_out").to_text(), "/b");
    assert_eq!(top.ancestor().to_text(), "/p");
    let odd = LinkCmd { output: Some("..".to_string()), top_level: true, files: vec![] };
    assert!(!odd.can_be_named());
}

#[test]
fn ancestors_are_above_all_files() {
    let of = |files: &[&str]| {
        LinkCmd { output: None, top_level: true, files: files.iter().map(|f| path(f)).collect() }
            .ancestor()
            .to_text()
    };
    assert_eq!(of(&["/p/x/a.c", "/p/x/b.c", "/p/y/c.c"]), "/p");
    assert_eq!(of(&["/p/x/a.c", "/p/x/y/b.c"]), "/p/x");
    assert_eq!(of(&["/p/a.c", "/q/a.c"]), "/");
    assert_eq!(of(&["/p/a.c", "q/a.c"]), "");
    assert_eq!(of(&["/a.c"]), "/");
    let mut tcfg = config();
    tcfg.output_dir = Some(path("/o"));
    let ancestor = path(&of(&["/p/x/a.c", "/p/y/c-d.c"]));
    assert!(can_have_output_path(&tcfg, &path("/p/x/a.c"), &ancestor));
    assert!(can_have_output_path(&tcfg, &path("/p/y/c-d.c"), &ancestor));
}

#[test]
fn batches_do_not_format() {
    let mut tcfg = config();
    tcfg.overwrite_existing = true;
    let plain = SingleRun::new(&tcfg, path("/a.c"), path("/a.rs"), false);
    assert!(!plain.disable_rustfmt && plain.overwrite_existing && !plain.fail_on_error);
    assert!(SingleRun::new(&tcfg, path("/a.c"), path("/a.rs"), true).disable_rustfmt);
    tcfg.disable_rustfmt = true;
    assert!(SingleRun::new(&tcfg, path("/a.c"), path("/a.rs"), false).disable_rustfmt);
}
