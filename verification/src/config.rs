//! Configuration settings of the transpiler, and what follows from them: which
//! files become binaries, what the crate is called, where output goes.

use crate::crates::opt_path;
use crate::diagnostics::{Diagnostic, LevelFilter};
use crate::kernel_idioms::KernelIdiomRules;
use crate::requirements::{lemma_with_item, with_item};
use crate::names::{
    checked_ident, get_module_name, ident_of, is_rust_file, law_modules_are_named_after_files,
    lemma_module_is_name, lemma_path_of_name, module_name, module_of, str_to_ident_checked,
};
use crate::path_laws::{
    ends_with_component, law_files_in_directories, law_files_without_directories, law_joining_texts,
    law_paths_are_written_with_separators,
};
use crate::paths::{
    component_views, file_name_of, fits, is_name, joined_text, law_named_paths_are_well_formed,
    law_written_paths_come_back, lemma_stem_not_empty, path_of, path_wf, stem_of, with_extension,
    with_extension_text, with_name, with_name_text, Component, ComponentView, SourcePath,
};
use crate::text::{
    chars_of, end_of_last, holds_text, lemma_taken_next, replace_char, replaced, string_of, strings,
    CharClass,
};
use vstd::prelude::*;

verus! {

/// Which macros are translated.
#[derive(Clone, Copy, PartialEq, Eq, Structural, Debug)]
pub enum TranslateMacros {
    /// Don't translate any macros.
    Never,
    /// Translate the conservative subset of macros known to always work.
    Conservative,
    /// Try to translate more, but this is experimental and not guaranteed to work.
    ///
    /// For const-like macros, this works in some cases.
    /// For function-like macros, this doesn't really work at all yet.
    Experimental,
}

impl Default for TranslateMacros {
    fn default() -> (res: Self)
        ensures
            res == TranslateMacros::Conservative,
    {
        TranslateMacros::Conservative
    }
}

/// What stands in for a declaration that cannot be translated.
#[derive(Clone, Copy, PartialEq, Eq, Structural, Debug)]
pub enum ReplaceMode {
    Nothing,
    Extern,
}

/// Configuration settings for the translation process
#[derive(Debug)]
pub struct TranspilerConfig {
    // Debug output options
    pub dump_untyped_context: bool,
    pub dump_typed_context: bool,
    pub pretty_typed_context: bool,
    pub dump_function_cfgs: bool,
    pub json_function_cfgs: bool,
    pub dump_cfg_liveness: bool,
    pub dump_structures: bool,
    pub verbose: bool,
    pub debug_ast_exporter: bool,
    pub emit_c_decl_map: bool,
    // Options that control translation
    pub incremental_relooper: bool,
    pub fail_on_multiple: bool,
    /// The regular expression that files must match.
    pub filter: Option<String>,
    pub debug_relooper_labels: bool,
    pub cross_checks: bool,
    pub cross_check_backend: String,
    pub cross_check_configs: Vec<String>,
    pub prefix_function_names: Option<String>,
    pub translate_asm: bool,
    pub use_c_loop_info: bool,
    pub use_c_multiple_info: bool,
    pub simplify_structures: bool,
    pub panic_on_translator_failure: bool,
    pub emit_modules: bool,
    pub fail_on_error: bool,
    pub replace_unsupported_decls: ReplaceMode,
    pub translate_valist: bool,
    pub overwrite_existing: bool,
    pub reduce_type_annotations: bool,
    pub reorganize_definitions: bool,
    pub enabled_warnings: Vec<Diagnostic>,
    pub emit_no_std: bool,
    pub output_dir: Option<SourcePath>,
    pub translate_const_macros: TranslateMacros,
    pub translate_fn_macros: TranslateMacros,
    pub disable_rustfmt: bool,
    pub disable_refactoring: bool,
    pub preserve_unused_functions: bool,
    pub log_level: LevelFilter,
    /// The year of the Rust edition.
    pub edition: u32,
    pub deny_unsafe_op_in_unsafe_fn: bool,
    /// Kernel-source-idiom rewrites to apply during translation. Empty by
    /// default: an unrequested rewrite must never fire.
    pub kernel_idiom_rules: KernelIdiomRules,
    /// Run `c2rust-postprocess` after transpiling and potentially refactoring.
    pub postprocess: bool,
    // Options that control build files
    /// Emit `Cargo.toml` and `lib.rs`
    pub emit_build_files: bool,
    /// Names of translation units containing main functions that we should make
    /// into binaries
    pub binaries: Vec<String>,
    pub thin_binaries: bool,
    pub c2rust_dir: Option<SourcePath>,
}

/// The file has a name, and something is left of it as a name without its
/// extension.
pub open spec fn has_binary_name(file: Seq<ComponentView>) -> bool {
    file_name_of(file) matches Some(name) && file_name_of(path_of(stem_of(name))) is Some
}

/// Whether the file has a name, and something is left of it as a name without
/// its extension.
pub fn can_name_binary(file: &SourcePath) -> (res: bool)
    ensures
        res == has_binary_name(file@),
{
    match file.file_stem() {
        Some(stem) => SourcePath::parse(stem.as_str()).file_name().is_some(),
        None => false,
    }
}

/// The name of the binary for a file: the name of the module for its name
/// without its extension.
pub open spec fn binary_name(file: Seq<ComponentView>) -> Seq<char> {
    module_name(stem_of(file_name_of(file).unwrap()), false, false, false, Seq::empty())
}

/// The views of a list of paths.
pub open spec fn path_views(paths: Seq<SourcePath>) -> Seq<Seq<ComponentView>> {
    Seq::new(paths.len(), |i: int| paths[i]@)
}

/// The texts of a list of paths.
pub open spec fn path_texts(paths: Seq<SourcePath>) -> Seq<Seq<char>> {
    Seq::new(paths.len(), |i: int| paths[i].text@)
}

/// One of the modules has this binary name.
pub open spec fn is_used(binary: Seq<char>, modules: Seq<Seq<ComponentView>>) -> bool {
    exists|k: int| 0 <= k < modules.len() && binary_name(#[trigger] modules[k]) == binary
}

impl TranspilerConfig {
    /// The name of the binary for a file.
    pub fn binary_name_from_path(file: &SourcePath) -> (res: String)
        requires
            has_binary_name(file@),
        ensures
            res@ == binary_name(file@),
    {
        let stem = file.file_stem().unwrap();
        let path = SourcePath::parse(stem.as_str());
        let keywords: Vec<String> = Vec::new();
        assert(strings(keywords@) =~= Seq::<Seq<char>>::empty());
        get_module_name(&path, false, false, false, keywords.as_slice()).unwrap()
    }

    /// Whether a binary was asked for the file.
    pub fn is_thin_or_full_binary(&self, file: &SourcePath) -> (res: bool)
        requires
            has_binary_name(file@),
        ensures
            res == strings(self.binaries@).contains(binary_name(file@)),
    {
        let module_name = TranspilerConfig::binary_name_from_path(file);
        holds_text(self.binaries.as_slice(), module_name.as_str())
    }

    /// Whether the file becomes a binary of its own. With `--thin-binaries`, all
    /// translation units go to the main library and thin wrappers are emitted
    /// separately.
    pub fn is_binary(&self, file: &SourcePath) -> (res: bool)
        requires
            has_binary_name(file@),
        ensures
            res == (!self.thin_binaries && strings(self.binaries@).contains(binary_name(file@))),
            res == becomes_binary(self.thin_binaries, strings(self.binaries@), file@),
    {
        !self.thin_binaries && self.is_thin_or_full_binary(file)
    }

    /// The binary names of the modules.
    pub fn binary_names(modules: &[SourcePath]) -> (res: Vec<String>)
        requires
            forall|k: int| 0 <= k < modules@.len() ==> has_binary_name(#[trigger] modules@[k]@),
        ensures
            strings(res@) == path_views(modules@).map_values(
                |m: Seq<ComponentView>| binary_name(m),
            ),
    {
        let mut names: Vec<String> = Vec::new();
        let mut k: usize = 0;
        while k < modules.len()
            invariant
                k <= modules@.len(),
                names@.len() == k,
                forall|j: int|
                    0 <= j < modules@.len() ==> has_binary_name(#[trigger] modules@[j]@),
                forall|j: int| 0 <= j < k ==> (#[trigger] names@[j])@ == binary_name(modules@[j]@),
            decreases modules@.len() - k,
        {
            names.push(TranspilerConfig::binary_name_from_path(&modules[k]));
            k += 1;
        }
        assert(strings(names@) =~= path_views(modules@).map_values(
            |m: Seq<ComponentView>| binary_name(m),
        ));
        names
    }

    /// The binary names of the modules, each once.
    pub fn candidate_names(modules: &[SourcePath]) -> (res: Vec<String>)
        requires
            forall|k: int| 0 <= k < modules@.len() ==> has_binary_name(#[trigger] modules@[k]@),
        ensures
            strings(res@).no_duplicates(),
            forall|name: Seq<char>| #[trigger]
                strings(res@).contains(name) <==> is_used(name, path_views(modules@)),
    {
        let names = TranspilerConfig::binary_names(modules);
        let ghost all = strings(names@);
        let ghost views = path_views(modules@);
        let mut out: Vec<String> = Vec::new();
        let mut i: usize = 0;
        assert(strings(out@) =~= Seq::<Seq<char>>::empty());
        while i < names.len()
            invariant
                i <= names@.len(),
                all == strings(names@),
                strings(out@).no_duplicates(),
                forall|name: Seq<char>| #[trigger]
                    strings(out@).contains(name) <==> all.take(i as int).contains(name),
            decreases names@.len() - i,
        {
            let name = &names[i];
            let ghost before = strings(out@);
            let held = holds_text(out.as_slice(), name.as_str());
            if !held {
                out.push(name.clone());
                assert(strings(out@) =~= before.push(name@));
            }
            proof {
                assert(all[i as int] == name@);
                let after = strings(out@);
                assert(after == with_item(before, name@));
                lemma_with_item(before, name@);
                assert forall|n: Seq<char>| #[trigger] after.contains(n) <==> all.take(
                    i + 1,
                ).contains(n) by {
                    lemma_taken_next(all, i as int, n);
                    assert(after.to_set().contains(n) == before.to_set().insert(name@).contains(n));
                }
            }
            i += 1;
        }
        proof {
            assert(all.take(all.len() as int) =~= all);
            assert forall|name: Seq<char>| #[trigger] strings(out@).contains(name) <==> is_used(
                name,
                views,
            ) by {
                if all.contains(name) {
                    let k = choose|k: int| 0 <= k < all.len() && all[k] == name;
                    assert(binary_name(views[k]) == name);
                }
                if is_used(name, views) {
                    let k = choose|k: int|
                        0 <= k < views.len() && binary_name(#[trigger] views[k]) == name;
                    assert(all[k] == name);
                }
            }
        }
        out
    }

    /// The binaries that were asked for and that no module has the name of.
    pub fn unused_binaries(&self, transpiled_modules: &[SourcePath]) -> (res: Vec<String>)
        requires
            forall|k: int|
                0 <= k < transpiled_modules@.len() ==> has_binary_name(
                    #[trigger] transpiled_modules@[k]@,
                ),
        ensures
            strings(res@) == strings(self.binaries@).filter(
                |b: Seq<char>| !is_used(b, path_views(transpiled_modules@)),
            ),
    {
        let names = TranspilerConfig::binary_names(transpiled_modules);
        let ghost modules = path_views(transpiled_modules@);
        let ghost all = strings(self.binaries@);
        let ghost is_unused = |b: Seq<char>| !is_used(b, modules);
        let mut unused: Vec<String> = Vec::new();
        let mut i: usize = 0;
        proof {
            reveal(Seq::filter);
            assert(strings(unused@) =~= all.take(0).filter(is_unused));
        }
        while i < self.binaries.len()
            invariant
                i <= self.binaries@.len(),
                all == strings(self.binaries@),
                is_unused == (|b: Seq<char>| !is_used(b, modules)),
                strings(names@) == modules.map_values(|m: Seq<ComponentView>| binary_name(m)),
                strings(unused@) == all.take(i as int).filter(is_unused),
            decreases self.binaries@.len() - i,
        {
            let binary = &self.binaries[i];
            let ghost before = unused@;
            let used = holds_text(names.as_slice(), binary.as_str());
            proof {
                reveal(Seq::filter);
                assert(all.take(i + 1).drop_last() == all.take(i as int));
                assert(all.take(i + 1).last() == binary@);
                assert(used == is_used(binary@, modules)) by {
                    if is_used(binary@, modules) {
                        let k = choose|k: int|
                            0 <= k < modules.len() && binary_name(#[trigger] modules[k]) == binary@;
                        assert(strings(names@)[k] == binary@);
                    }
                    if used {
                        let k = choose|k: int|
                            0 <= k < strings(names@).len() && strings(names@)[k] == binary@;
                        assert(binary_name(modules[k]) == binary@);
                    }
                }
            }
            if !used {
                unused.push(binary.clone());
                assert(strings(unused@) =~= strings(before).push(binary@));
            }
            i += 1;
        }
        assert(all.take(all.len() as int) == all);
        unused
    }

    /// Whether every binary that was asked for has the name of a module.
    pub fn check_if_all_binaries_used(&self, transpiled_modules: &[SourcePath]) -> (res: bool)
        requires
            forall|k: int|
                0 <= k < transpiled_modules@.len() ==> has_binary_name(
                    #[trigger] transpiled_modules@[k]@,
                ),
        ensures
            res == forall|i: int|
                0 <= i < self.binaries@.len() ==> is_used(
                    #[trigger] strings(self.binaries@)[i],
                    path_views(transpiled_modules@),
                ),
    {
        let unused = self.unused_binaries(transpiled_modules);
        let ghost all = strings(self.binaries@);
        let ghost modules = path_views(transpiled_modules@);
        let ghost is_unused = |b: Seq<char>| !is_used(b, modules);
        let ok = unused.len() == 0;
        proof {
            broadcast use vstd::seq_lib::group_filter_ensures;
            assert(strings(unused@) == all.filter(is_unused));
            if ok {
                assert forall|i: int| 0 <= i < all.len() implies is_used(
                    #[trigger] all[i],
                    modules,
                ) by {
                    if !is_used(all[i], modules) {
                        assert(is_unused(all[i]));
                        assert(all.filter(is_unused).contains(all[i]));
                    }
                }
            } else {
                let b = strings(unused@)[0];
                assert(all.filter(is_unused)[0] == b);
                assert(is_unused(b));
                assert(all.filter(is_unused).contains(b));
                all.lemma_filter_contains_rev(is_unused, b);
            }
        }
        ok
    }

    /// The name of the crate: the name of the output directory as an
    /// identifier.
    pub fn crate_name(&self, keywords: &[String]) -> (res: String)
        ensures
            res@ == crate_name(opt_path(self.output_dir), strings(keywords@)),
    {
        match &self.output_dir {
            Some(dir) => match dir.file_name() {
                Some(fname) => str_to_ident_checked(fname.as_str(), true, keywords),
                None => "c2rust_out".to_owned(),
            },
            None => "c2rust_out".to_owned(),
        }
    }
}

/// The name of the crate for an output directory.
pub open spec fn crate_name(output_dir: Option<Seq<ComponentView>>, keywords: Seq<Seq<char>>) -> Seq<
    char,
> {
    match output_dir {
        Some(dir) => match file_name_of(dir) {
            Some(fname) => checked_ident(fname, true, keywords),
            None => "c2rust_out"@,
        },
        None => "c2rust_out"@,
    }
}

/// The input path with underscores for the dashes of its file name, which are
/// not allowed in Rust file names, and the extension of Rust files.
pub open spec fn renamed_input(input: Seq<ComponentView>) -> Seq<ComponentView> {
    with_extension(
        with_name(input, replace_char(file_name_of(input).unwrap(), '-', '_')),
        "rs"@,
    )
}

/// The component as a directory or file among the modules.
pub open spec fn module_component(c: ComponentView) -> ComponentView {
    match c {
        ComponentView::Normal(name) => ComponentView::Normal(
            module_of(name, false, true, Seq::empty()),
        ),
        _ => c,
    }
}

/// Every component is a name.
pub open spec fn all_names(p: Seq<ComponentView>) -> bool {
    forall|i: int| 0 <= i < p.len() ==> #[trigger] p[i] is Normal
}

/// The place of the source files in a build directory.
pub open spec fn source_dir(build_dir: Seq<ComponentView>) -> Seq<ComponentView> {
    build_dir.push(ComponentView::Normal("src"@))
}

/// Where the output for an input goes: with an output directory, under `src` in
/// the build directory, by the path that the input has below the common
/// ancestor; without one, beside the input.
pub open spec fn output_path(
    has_output_dir: bool,
    input: Seq<ComponentView>,
    ancestor: Seq<ComponentView>,
    build_dir: Seq<ComponentView>,
) -> Seq<ComponentView> {
    let renamed = renamed_input(input);
    if has_output_dir {
        source_dir(build_dir) + renamed.skip(ancestor.len() as int).map_values(
            |c: ComponentView| module_component(c),
        )
    } else {
        renamed
    }
}

/// The text of the input path with the name of a Rust file.
pub open spec fn renamed_text(input: Seq<char>) -> Seq<char> {
    with_extension_text(
        with_name_text(input, replace_char(file_name_of(path_of(input)).unwrap(), '-', '_')),
        "rs"@,
    )
}

/// The names of the modules for some components.
pub open spec fn module_names(p: Seq<ComponentView>) -> Seq<Seq<char>> {
    Seq::new(
        p.len(),
        |i: int|
            match p[i] {
                ComponentView::Normal(name) => module_of(name, false, true, Seq::empty()),
                _ => Seq::empty(),
            },
    )
}

/// A text with some names joined to it one by one.
pub open spec fn with_names(text: Seq<char>, names: Seq<Seq<char>>) -> Seq<char>
    decreases names.len(),
{
    if names.len() == 0 {
        text
    } else {
        joined_text(with_names(text, names.drop_last()), names.last())
    }
}

/// How the output path for an input is written.
pub open spec fn output_text(
    has_output_dir: bool,
    input: Seq<char>,
    ancestor: Seq<ComponentView>,
    build_dir: Seq<char>,
) -> Seq<char> {
    if has_output_dir {
        with_names(
            joined_text(build_dir, "src"@),
            module_names(renamed_input(path_of(input)).skip(ancestor.len() as int)),
        )
    } else {
        renamed_text(input)
    }
}

/// An output path can be made: the input has a name, and with an output
/// directory the input lies below the ancestor with nothing but names between
/// the two.
pub open spec fn has_output_path(
    has_output_dir: bool,
    input: Seq<ComponentView>,
    ancestor: Seq<ComponentView>,
) -> bool {
    &&& file_name_of(input) is Some
    &&& has_output_dir ==> ancestor.is_prefix_of(renamed_input(input)) && all_names(
        renamed_input(input).skip(ancestor.len() as int),
    )
}

/// The input path with the name of a Rust file.
fn rename_input(input_path: &SourcePath) -> (res: SourcePath)
    requires
        file_name_of(input_path@) is Some,
    ensures
        res@ == renamed_input(input_path@),
        res.text@ == renamed_text(input_path.text@),
{
    proof {
        reveal_strlit("rs");
    }
    let name = input_path.file_name().unwrap();
    let chars = chars_of(name.as_str());
    let dashless = replaced(chars.as_slice(), '-', '_');
    let file_name = string_of(dashless.as_slice());
    input_path.with_file_name(file_name.as_str()).with_extension("rs")
}

/// Whether an output path can be made for the input.
pub fn can_have_output_path(
    tcfg: &TranspilerConfig,
    input_path: &SourcePath,
    ancestor_path: &SourcePath,
) -> (res: bool)
    ensures
        res == has_output_path(tcfg.output_dir is Some, input_path@, ancestor_path@),
{
    if input_path.file_name().is_none() {
        return false;
    }
    if tcfg.output_dir.is_none() {
        return true;
    }
    let renamed = rename_input(input_path);
    match renamed.strip_prefix(ancestor_path) {
        None => false,
        Some(rest) => {
            let components = rest.components();
            let mut i: usize = 0;
            while i < components.len()
                invariant
                    i <= components@.len(),
                    tcfg.output_dir is Some,
                    component_views(components@) == rest@,
                    rest@ == renamed_input(input_path@).skip(ancestor_path@.len() as int),
                    forall|k: int| 0 <= k < i ==> #[trigger] rest@[k] is Normal,
                decreases components@.len() - i,
            {
                assert(rest@[i as int] == components@[i as int]@);
                match &components[i] {
                    Component::Normal(_) => {},
                    _ => {
                        assert(!(rest@[i as int] is Normal));
                        return false;
                    },
                }
                i += 1;
            }
            true
        },
    }
}

/// Where the output for an input goes.
pub fn get_output_path(
    tcfg: &TranspilerConfig,
    input_path: &SourcePath,
    ancestor_path: &SourcePath,
    build_dir: &SourcePath,
) -> (res: SourcePath)
    requires
        has_output_path(tcfg.output_dir is Some, input_path@, ancestor_path@),
    ensures
        res.text@ == output_text(
            tcfg.output_dir is Some,
            input_path.text@,
            ancestor_path@,
            build_dir.text@,
        ),
        res@ == output_path(tcfg.output_dir is Some, input_path@, ancestor_path@, build_dir@),
{
    let renamed = rename_input(input_path);
    if tcfg.output_dir.is_none() {
        return renamed;
    }
    proof {
        law_named_paths_are_well_formed(input_path.text@);
        lemma_renamed_is_path(input_path@);
        lemma_src_is_name();
    }
    let rest = renamed.strip_prefix(ancestor_path).unwrap();
    let src = SourcePath::parse("src");
    let mut output = build_dir.join(&src);
    assert(output@ =~= source_dir(build_dir@));
    let keywords: Vec<String> = Vec::new();
    assert(strings(keywords@) =~= Seq::<Seq<char>>::empty());
    let components = rest.components();
    let ghost modules = rest@.map_values(|c: ComponentView| module_component(c));
    let ghost names = module_names(rest@);
    let ghost base = output.text@;
    let mut i: usize = 0;
    while i < components.len()
        invariant
            i <= components@.len(),
            component_views(components@) == rest@,
            path_wf(rest@),
            all_names(rest@),
            strings(keywords@) == Seq::<Seq<char>>::empty(),
            modules == rest@.map_values(|c: ComponentView| module_component(c)),
            names == module_names(rest@),
            output@ == source_dir(build_dir@) + modules.take(i as int),
            output.text@ == with_names(base, names.take(i as int)),
        decreases components@.len() - i,
    {
        assert(rest@[i as int] == components@[i as int]@);
        assert(names.take(i + 1).drop_last() =~= names.take(i as int));
        if let Component::Normal(elem) = &components[i] {
            proof {
                assert(fits(rest@[i as int], i as int));
                lemma_path_of_name(elem@);
                lemma_module_is_name(elem@, false, true, Seq::empty());
                lemma_path_of_name(module_of(elem@, false, true, Seq::empty()));
            }
            let path = SourcePath::parse(elem.as_str());
            let name = get_module_name(&path, false, true, false, keywords.as_slice()).unwrap();
            let module = SourcePath::parse(name.as_str());
            output = output.join(&module);
        }
        proof {
            assert(modules.take(i + 1) =~= modules.take(i as int).push(modules[i as int]));
            assert(names.take(i + 1).last() == names[i as int]);
        }
        i += 1;
        assert(output@ =~= source_dir(build_dir@) + modules.take(i as int));
    }
    assert(modules.take(modules.len() as int) =~= modules);
    assert(names.take(names.len() as int) =~= names);
    output
}

proof fn lemma_src_is_name()
    ensures
        path_of("src"@) == seq![ComponentView::Normal("src"@)],
{
    reveal_strlit("src");
    reveal_strlit(".");
    reveal_strlit("..");
    assert("src"@.len() == 3);
    assert("."@.len() == 1);
    assert(".."@.len() == 2);
    assert(!"src"@.contains('/'));
    lemma_path_of_name("src"@);
}

/// The renamed input is the input with another file name, which has the
/// extension of Rust files.
pub proof fn lemma_renamed_is_path(input: Seq<ComponentView>)
    requires
        path_wf(input),
        file_name_of(input) is Some,
    ensures
        path_wf(renamed_input(input)),
        renamed_input(input).len() == input.len(),
        renamed_input(input).drop_last() == input.drop_last(),
        renamed_input(input).last() matches ComponentView::Normal(name) && is_name(name) && name
            == stem_of(replace_char(file_name_of(input).unwrap(), '-', '_')) + ".rs"@,
{
    reveal_strlit("rs");
    reveal_strlit(".");
    reveal_strlit("..");
    reveal_strlit(".rs");
    let name = file_name_of(input).unwrap();
    let last = input.len() - 1;
    assert(fits(input[last], last));
    assert(is_name(name));
    let dashless = replace_char(name, '-', '_');
    lemma_dashless_is_name(name);
    lemma_path_of_name(dashless);
    let dir = input.drop_last();
    assert(with_name(input, dashless) =~= dir.push(ComponentView::Normal(dashless)));
    assert(dir.push(ComponentView::Normal(dashless)).drop_last() =~= dir);
    lemma_stem_not_empty(dashless);
    let stem = stem_of(dashless);
    let renamed = stem + "."@ + "rs"@;
    assert(renamed =~= stem + ".rs"@);
    assert(renamed_input(input) == dir.push(ComponentView::Normal(renamed)));
    assert(is_name(renamed)) by {
        assert(renamed[stem.len() as int + 1] == 'r');
        assert(renamed.len() >= 4);
        if renamed.contains('/') {
            let k = choose|k: int| 0 <= k < renamed.len() && renamed[k] == '/';
            if k < stem.len() {
                assert(stem[k] == dashless[k]);
                assert(dashless.contains('/'));
            }
        }
    }
    let p = renamed_input(input);
    assert forall|i: int| 0 <= i < p.len() implies fits(#[trigger] p[i], i) by {
        if i < dir.len() {
            assert(fits(input[i], i));
        }
    }
    assert(p.drop_last() =~= input.drop_last());
}

/// With an output directory, the output lies below `src` in the build
/// directory; without one, in the directory of the input. Either way it has as
/// many components below as the input has below its ancestor, and is named
/// like a Rust file.
pub proof fn law_output_path(
    has_output_dir: bool,
    input: Seq<ComponentView>,
    ancestor: Seq<ComponentView>,
    build_dir: Seq<ComponentView>,
)
    requires
        path_wf(input),
        has_output_path(has_output_dir, input, ancestor),
        ancestor.len() < input.len(),
    ensures
        ({
            let output = output_path(has_output_dir, input, ancestor, build_dir);
            &&& has_output_dir ==> source_dir(build_dir).is_prefix_of(output) && output.len()
                == build_dir.len() + 1 + input.len() - ancestor.len()
            &&& !has_output_dir ==> output.drop_last() == input.drop_last()
            &&& file_name_of(output) matches Some(name) && is_rust_file(name)
        }),
{
    lemma_renamed_is_path(input);
    let output = output_path(has_output_dir, input, ancestor, build_dir);
    let renamed = renamed_input(input);
    let name = file_name_of(renamed).unwrap();
    assert(fits(input[input.len() - 1], input.len() - 1));
    lemma_stem_not_empty(replace_char(file_name_of(input).unwrap(), '-', '_'));
    let stem = stem_of(replace_char(file_name_of(input).unwrap(), '-', '_'));
    lemma_extension_of_rust_file(stem);
    assert(name == stem + ".rs"@);
    if has_output_dir {
        let below = renamed.skip(ancestor.len() as int);
        let modules = below.map_values(|c: ComponentView| module_component(c));
        assert(source_dir(build_dir) =~= output.subrange(0, source_dir(build_dir).len() as int));
        assert(below.last() == renamed.last());
        assert(modules.last() == module_component(below.last()));
        assert(output.last() == modules.last());
        lemma_extension_of_rust_file(checked_ident(stem_of(name), false, Seq::empty()));
    }
}

/// A name that ends in `.rs` is the name of a Rust file, if something stands
/// before that.
proof fn lemma_extension_of_rust_file(stem: Seq<char>)
    ensures
        stem.len() > 0 ==> is_rust_file(stem + ".rs"@) && stem_of(stem + ".rs"@) == stem,
{
    reveal_strlit(".rs");
    reveal_strlit("rs");
    let name = stem + ".rs"@;
    let n = stem.len() as int;
    let dot = CharClass::Is('.');
    assert(name[n] == '.' && name[n + 1] == 'r' && name[n + 2] == 's');
    assert(end_of_last(name, dot, n + 1) == n + 1);
    assert(end_of_last(name, dot, n + 2) == n + 1);
    assert(end_of_last(name, dot, n + 3) == n + 1);
    assert(name.skip(n + 1) =~= "rs"@);
    assert(name.take(n) =~= stem);
}

/// The binary for a file is called like the module for the file's name without
/// its extension, and has a name exactly if that is one. So it is the name as an
/// identifier, unless `.rs` is left at its end.
pub proof fn law_binaries_are_named_after_files(
    dir: Seq<ComponentView>,
    name: Seq<char>,
)
    requires
        is_name(name),
    ensures
        ({
            let file = dir.push(ComponentView::Normal(name));
            let stem = stem_of(name);
            &&& has_binary_name(file) <==> is_name(stem)
            &&& is_name(stem) ==> binary_name(file) == module_of(stem, false, false, Seq::empty())
            &&& is_name(stem) && (forall|before: Seq<char>|
                before.len() > 0 ==> stem != #[trigger] (before + ".rs"@)) ==> binary_name(file)
                == ident_of(stem)
        }),
{
    let stem = stem_of(name);
    lemma_stem_not_empty(name);
    assert(!stem.contains('/')) by {
        if stem.contains('/') {
            let k = choose|k: int| 0 <= k < stem.len() && stem[k] == '/';
            assert(name[k] == '/');
        }
    }
    if is_name(stem) {
        lemma_path_of_name(stem);
        if forall|before: Seq<char>| before.len() > 0 ==> stem != #[trigger] (before + ".rs"@) {
            law_modules_are_named_after_files(stem, stem, false, Seq::empty());
        }
    } else if stem == "."@ {
        law_written_paths_come_back(seq![ComponentView::CurDir]);
        law_paths_are_written_with_separators(Seq::empty(), ComponentView::CurDir);
        assert(path_of(stem) == seq![ComponentView::CurDir]);
    } else {
        law_written_paths_come_back(seq![ComponentView::ParentDir]);
        law_paths_are_written_with_separators(Seq::empty(), ComponentView::ParentDir);
        assert(path_of(stem) == seq![ComponentView::ParentDir]);
    }
}

/// The crate is called like the output directory, as an identifier that is no
/// keyword, and `c2rust_out` if the directory has no name or there is none.
pub proof fn law_crates_are_named_after_directories(
    dir: Seq<ComponentView>,
    name: Seq<char>,
    c: ComponentView,
    keywords: Seq<Seq<char>>,
)
    ensures
        crate_name(None, keywords) == "c2rust_out"@,
        crate_name(Some(dir.push(ComponentView::Normal(name))), keywords) == if keywords.contains(
            ident_of(name),
        ) {
            "r#"@ + ident_of(name)
        } else {
            ident_of(name)
        },
        !(c is Normal) ==> crate_name(Some(dir.push(c)), keywords) == "c2rust_out"@,
        crate_name(Some(Seq::empty()), keywords) == "c2rust_out"@,
{
}

/// The output for a file is named like the file, with underscores for dashes and
/// `.rs` for its extension. Without an output directory it lies beside the file,
/// and that is all that changes. With one it lies below `src` in the build
/// directory, by the path that the file has below the common ancestor: each
/// directory as the name of a module, and the file's own name as an identifier.
pub proof fn law_outputs_mirror_inputs(
    ancestor: Seq<ComponentView>,
    dirs: Seq<Seq<char>>,
    file: Seq<char>,
    build_dir: Seq<ComponentView>,
)
    requires
        is_name(file),
    ensures
        ({
            let names = dirs.map_values(|d: Seq<char>| ComponentView::Normal(d));
            let input = ancestor + names + seq![ComponentView::Normal(file)];
            let stem = stem_of(replace_char(file, '-', '_'));
            let output = output_path(true, input, ancestor, build_dir);
            let n = build_dir.len() as int;
            &&& output_path(false, input, ancestor, build_dir) == ancestor + names + seq![
                ComponentView::Normal(stem + ".rs"@),
            ]
            &&& output.len() == n + 1 + dirs.len() + 1
            &&& output.take(n) == build_dir
            &&& output[n] == ComponentView::Normal("src"@)
            &&& forall|i: int|
                0 <= i < dirs.len() ==> output[n + 1 + i] == ComponentView::Normal(
                    module_of(#[trigger] dirs[i], false, true, Seq::empty()),
                )
            &&& output.last() == ComponentView::Normal(ident_of(stem) + ".rs"@)
        }),
{
    reveal_strlit(".");
    reveal_strlit(".rs");
    reveal_strlit("rs");
    let names = dirs.map_values(|d: Seq<char>| ComponentView::Normal(d));
    let dir = ancestor + names;
    let input = dir + seq![ComponentView::Normal(file)];
    let dashless = replace_char(file, '-', '_');
    let stem = stem_of(dashless);
    lemma_dashless_is_name(file);
    lemma_path_of_name(dashless);
    lemma_stem_not_empty(dashless);
    assert(input.drop_last() =~= dir);
    assert(with_name(input, dashless) =~= dir.push(ComponentView::Normal(dashless)));
    assert(dir.push(ComponentView::Normal(dashless)).drop_last() =~= dir);
    let new_name = stem + ".rs"@;
    assert(stem + "."@ + "rs"@ =~= new_name);
    assert(renamed_input(input) =~= dir.push(ComponentView::Normal(new_name)));
    assert(output_path(false, input, ancestor, build_dir) =~= ancestor + names + seq![
        ComponentView::Normal(new_name),
    ]);
    let below = renamed_input(input).skip(ancestor.len() as int);
    assert(below =~= names.push(ComponentView::Normal(new_name)));
    lemma_extension_of_rust_file(stem);
    let output = output_path(true, input, ancestor, build_dir);
    assert(output.take(build_dir.len() as int) =~= build_dir);
    assert(output.last() == module_component(below.last()));
}

/// Beside a file, the output is written like the file with another name, in a
/// directory as well as without one. Elsewhere it is written behind `src` in the
/// build directory, name by name.
pub proof fn law_outputs_are_written(
    dir: Seq<char>,
    file: Seq<char>,
    ancestor: Seq<ComponentView>,
    build_dir: Seq<char>,
)
    requires
        ends_with_component(dir),
        is_name(file),
    ensures
        ({
            let name = stem_of(replace_char(file, '-', '_')) + ".rs"@;
            &&& output_text(false, dir + "/"@ + file, ancestor, build_dir) == dir + "/"@ + name
            &&& output_text(false, file, ancestor, build_dir) == name
            &&& output_text(false, "/"@ + file, ancestor, build_dir) == "/"@ + name
            &&& output_text(true, file, ancestor, build_dir) == with_names(
                joined_text(build_dir, "src"@),
                module_names(renamed_input(path_of(file)).skip(ancestor.len() as int)),
            )
        }),
{
    reveal_strlit(".");
    reveal_strlit(".rs");
    reveal_strlit("rs");
    let dashless = replace_char(file, '-', '_');
    let stem = stem_of(dashless);
    lemma_dashless_is_name(file);
    law_files_in_directories(dir, file, dashless, "rs"@);
    law_files_in_directories(dir, dashless, dashless, "rs"@);
    law_files_without_directories(file, dashless, "rs"@);
    law_files_without_directories(dashless, dashless, "rs"@);
    assert(stem + "."@ + "rs"@ =~= stem + ".rs"@);
}

/// A name is a name without its dashes too.
proof fn lemma_dashless_is_name(file: Seq<char>)
    requires
        is_name(file),
    ensures
        is_name(replace_char(file, '-', '_')),
        replace_char(file, '-', '_')[0] != '/',
{
    reveal_strlit(".");
    reveal_strlit("..");
    assert("."@.len() == 1 && ".."@.len() == 2);
    let dashless = replace_char(file, '-', '_');
    assert forall|k: int| 0 <= k < file.len() implies dashless[k] != '/' by {
        assert(file.contains(file[k]));
    }
    if dashless == "."@ {
        assert(dashless[0] == '.');
        assert(file =~= "."@);
    }
    if dashless == ".."@ {
        assert(dashless[0] == '.' && dashless[1] == '.');
        assert(file =~= ".."@);
    }
}

/// A name goes behind the names before it, with a separator.
pub proof fn law_names_are_joined(text: Seq<char>, names: Seq<Seq<char>>, name: Seq<char>)
    requires
        text.len() > 0,
        is_name(name),
        forall|i: int| 0 <= i < names.len() ==> is_name(#[trigger] names[i]),
    ensures
        with_names(text, Seq::empty()) == text,
        names.len() > 0 || text.last() != '/' ==> with_names(text, names.push(name)) == with_names(
            text,
            names,
        ) + "/"@ + name,
    decreases names.len(),
{
    assert(names.push(name).drop_last() =~= names);
    assert(name.contains(name[0]));
    if names.len() > 0 {
        let last = names.last();
        let before = with_names(text, names.drop_last());
        assert(is_name(names[names.len() - 1]));
        assert(last.contains(last.last()) && last.contains(last[0]));
        assert(with_names(text, names).last() == last.last());
    }
    law_joining_texts(with_names(text, names), name);
}

/// A file becomes a binary of its own exactly if one was asked for under its name
/// and binaries are not to be thin.
pub open spec fn becomes_binary(
    thin_binaries: bool,
    binaries: Seq<Seq<char>>,
    file: Seq<ComponentView>,
) -> bool {
    !thin_binaries && binaries.contains(binary_name(file))
}

/// Nothing becomes a binary of its own where binaries are thin or none was asked
/// for, and otherwise exactly what was asked for by its name.
pub proof fn law_binaries_are_asked_for(
    binaries: Seq<Seq<char>>,
    file: Seq<ComponentView>,
    i: int,
)
    ensures
        !becomes_binary(true, binaries, file),
        !becomes_binary(false, Seq::empty(), file),
        0 <= i < binaries.len() && binaries[i] == binary_name(file) ==> becomes_binary(
            false,
            binaries,
            file,
        ),
        becomes_binary(false, binaries, file) ==> exists|k: int|
            0 <= k < binaries.len() && #[trigger] binaries[k] == binary_name(file),
{
}

/// A binary counts as used exactly if one of the modules has its name.
pub proof fn law_used_binaries(modules: Seq<Seq<ComponentView>>, module: Seq<ComponentView>)
    ensures
        forall|b: Seq<char>| #[trigger]
            is_used(b, modules.push(module)) <==> is_used(b, modules) || b == binary_name(module),
        forall|b: Seq<char>| !#[trigger] is_used(b, Seq::empty()),
{
    let all = modules.push(module);
    assert forall|b: Seq<char>| #[trigger] is_used(b, all) <==> is_used(b, modules) || b
        == binary_name(module) by {
        if is_used(b, modules) {
            let k = choose|k: int| 0 <= k < modules.len() && binary_name(#[trigger] modules[k]) == b;
            assert(all[k] == modules[k]);
        }
        if b == binary_name(module) {
            assert(all[modules.len() as int] == module);
        }
        if is_used(b, all) {
            let k = choose|k: int| 0 <= k < all.len() && binary_name(#[trigger] all[k]) == b;
            if k < modules.len() {
                assert(all[k] == modules[k]);
            }
        }
    }
}

/// A path that does not end with a name has neither a binary nor an output. With
/// an output directory, a file has an output exactly if it lies below the
/// ancestor with nothing but names between the two.
pub proof fn law_files_need_names(
    has_output_dir: bool,
    dir: Seq<ComponentView>,
    c: ComponentView,
    name: Seq<char>,
    ancestor: Seq<ComponentView>,
)
    requires
        path_wf(dir.push(ComponentView::Normal(name))),
    ensures
        !(c is Normal) ==> !has_binary_name(dir.push(c)) && !has_output_path(
            has_output_dir,
            dir.push(c),
            ancestor,
        ),
        ({
            let file = dir.push(ComponentView::Normal(name));
            &&& has_output_path(false, file, ancestor)
            &&& ancestor.len() <= dir.len() ==> (has_output_path(true, file, ancestor)
                <==> ancestor.is_prefix_of(dir) && forall|i: int|
                ancestor.len() <= i < dir.len() ==> #[trigger] dir[i] is Normal)
        }),
{
    let file = dir.push(ComponentView::Normal(name));
    let renamed = renamed_input(file);
    lemma_renamed_is_path(file);
    let n = ancestor.len() as int;
    let rest = renamed.skip(n);
    assert(file.drop_last() =~= dir);
    if n <= dir.len() {
        assert forall|i: int| 0 <= i < dir.len() implies renamed[i] == dir[i] by {
            assert(renamed.drop_last()[i] == dir[i]);
        }
        assert(renamed.subrange(0, n) =~= dir.subrange(0, n));
        if forall|i: int| n <= i < dir.len() ==> #[trigger] dir[i] is Normal {
            assert forall|k: int| 0 <= k < rest.len() implies #[trigger] rest[k] is Normal by {
                assert(rest[k] == renamed[n + k]);
                if n + k < dir.len() {
                    assert(dir[n + k] is Normal);
                } else {
                    assert(renamed[n + k] == renamed.last());
                }
            }
        }
        if all_names(rest) {
            assert forall|i: int| n <= i < dir.len() implies #[trigger] dir[i] is Normal by {
                assert(rest[i - n] is Normal);
            }
        }
    }
}

} // verus!
