//! The programs around the transpiler: what Clang is called with, and what is
//! run on the emitted crate.

use crate::config::TranspilerConfig;
use crate::errors::opt_text;
use crate::path_laws::{
    ends_with_component, law_files_in_directories, law_files_without_directories, law_joining_texts,
    law_no_parent_of_nothing,
};
use crate::paths::{file_name_of, is_name, joined_text, parent_text, path_of, SourcePath};
use crate::text::{chars_of, copy_range, join, push_all, push_text, same_text, string_of, strings};
use vstd::prelude::*;

verus! {

/// An entry of a compilation database.
#[derive(Debug)]
pub struct CompileCmd {
    pub directory: String,
    pub file: String,
    pub arguments: Vec<String>,
    pub command: Option<String>,
    pub output: Option<String>,
}

/// What a [`CompileCmd`] says.
#[verifier::ext_equal]
pub struct CommandView {
    pub directory: Seq<char>,
    pub file: Seq<char>,
    pub arguments: Seq<Seq<char>>,
    pub command: Option<Seq<char>>,
    pub output: Option<Seq<char>>,
}

impl View for CompileCmd {
    type V = CommandView;

    open spec fn view(&self) -> CommandView {
        CommandView {
            directory: self.directory@,
            file: self.file@,
            arguments: strings(self.arguments@),
            command: opt_text(self.command),
            output: opt_text(self.output),
        }
    }
}

/// The entry that compiles a file by itself.
pub open spec fn command_for(file: Seq<char>) -> CommandView {
    CommandView {
        directory: "."@,
        file,
        arguments: seq!["clang"@, file],
        command: None,
        output: None,
    }
}

/// The entries that compile some files, given by their absolute paths, each by
/// itself.
pub fn create_temp_compile_commands(sources: &[String]) -> (res: Vec<CompileCmd>)
    ensures
        res@.len() == sources@.len(),
        forall|i: int| 0 <= i < sources@.len() ==> (#[trigger] res@[i])@ == command_for(sources@[i]@),
{
    let mut commands: Vec<CompileCmd> = Vec::new();
    let mut i: usize = 0;
    while i < sources.len()
        invariant
            i <= sources@.len(),
            commands@.len() == i,
            forall|k: int| 0 <= k < i ==> (#[trigger] commands@[k])@ == command_for(sources@[k]@),
        decreases sources@.len() - i,
    {
        let mut arguments: Vec<String> = Vec::new();
        arguments.push("clang".to_owned());
        arguments.push(sources[i].clone());
        assert(strings(arguments@) =~= seq!["clang"@, sources@[i as int]@]);
        commands.push(
            CompileCmd {
                directory: ".".to_owned(),
                file: sources[i].clone(),
                arguments,
                command: None,
                output: None,
            },
        );
        i += 1;
    }
    commands
}

/// The arguments that Clang needs beside those of the user: on macOS, where the
/// system headers are if they are not in `/usr/include`, and that Apple's
/// blocks extension is off. The path of the SDK is what `xcrun` printed, without
/// the last character, which ends the line.
pub open spec fn extra_clang_args(
    is_macos: bool,
    usr_include_exists: bool,
    printed_sdk_path: Seq<char>,
) -> Seq<Seq<char>> {
    if !is_macos {
        Seq::empty()
    } else if usr_include_exists {
        seq!["-fno-blocks"@]
    } else {
        seq![
            "-isystem"@,
            printed_sdk_path.drop_last() + "/usr/include"@,
            "-fno-blocks"@,
        ]
    }
}

/// Ensure that clang can locate the system headers on macOS 10.14+.
///
/// MacOS 10.14 does not have a `/usr/include` folder even if Xcode
/// or the command line developer tools are installed as explained in
/// this [thread](https://forums.developer.apple.com/thread/104296).
/// It is possible to install a package which puts the headers in
/// `/usr/include` but the user doesn't have to since we can find
/// the system headers we need by running `xcrun --show-sdk-path`.
pub fn get_extra_args_macos(
    is_macos: bool,
    usr_include_exists: bool,
    printed_sdk_path: &str,
) -> (res: Vec<String>)
    requires
        is_macos && !usr_include_exists ==> printed_sdk_path@.len() > 0
            && printed_sdk_path@.last() <= '\x7f',
    ensures
        strings(res@) == extra_clang_args(is_macos, usr_include_exists, printed_sdk_path@),
{
    let mut args: Vec<String> = Vec::new();
    if is_macos {
        if !usr_include_exists {
            let printed = chars_of(printed_sdk_path);
            let mut sdk_path = copy_range(printed.as_slice(), 0, printed.len() - 1);
            assert(sdk_path@ =~= printed_sdk_path@.drop_last());
            push_text(&mut sdk_path, "/usr/include");
            args.push("-isystem".to_owned());
            args.push(string_of(sdk_path.as_slice()));
        }
        args.push("-fno-blocks".to_owned());
    }
    assert(strings(args@) =~= extra_clang_args(
        is_macos,
        usr_include_exists,
        printed_sdk_path@,
    ));
    args
}

/// The arguments with those of the user behind them.
pub fn with_user_args(args: Vec<String>, user_args: &[String]) -> (res: Vec<String>)
    ensures
        strings(res@) == strings(args@) + strings(user_args@),
        strings(res@) == all_clang_args(strings(args@), strings(user_args@)),
{
    let mut res = args;
    let ghost user = strings(user_args@);
    let mut i: usize = 0;
    while i < user_args.len()
        invariant
            i <= user_args@.len(),
            user == strings(user_args@),
            strings(res@) == strings(args@) + user.take(i as int),
        decreases user_args@.len() - i,
    {
        let ghost before = res@;
        res.push(user_args[i].clone());
        proof {
            assert(strings(res@) =~= strings(before).push(user[i as int]));
            assert(user.take(i + 1) =~= user.take(i as int).push(user[i as int]));
        }
        i += 1;
    }
    assert(user.take(user.len() as int) =~= user);
    res
}

/// A transformation of the refactorer.
#[derive(Clone, Copy, PartialEq, Eq, Structural, Debug)]
pub enum Transform {
    RenameUnnamed,
    ReorganizeDefinitions,
}

/// The name of a transformation.
pub open spec fn transform_name(t: Transform) -> Seq<char> {
    match t {
        Transform::RenameUnnamed => "rename_unnamed"@,
        Transform::ReorganizeDefinitions => "reorganize_definitions"@,
    }
}

/// The arguments that the refactorer gets for a transformation.
pub open spec fn refactor_args(t: Transform) -> Seq<Seq<char>> {
    seq!["--cargo"@, "--rewrite-mode"@, "inplace"@, transform_name(t)]
}

/// How far refactoring has come.
#[derive(Clone, Copy, PartialEq, Eq, Structural, Debug)]
pub enum RefactorStep {
    /// Check that the crate builds cleanly.
    CheckCrate,
    /// Run a transformation.
    Run(Transform),
    /// All is done.
    Done,
}

/// The step after one that ended well, or the message about one that did not.
/// The crate is checked first, then the transformations run one by one.
pub open spec fn after_refactor_step(step: RefactorStep, success: bool) -> Result<
    RefactorStep,
    Seq<char>,
> {
    match step {
        RefactorStep::CheckCrate => if success {
            Ok(RefactorStep::Run(Transform::RenameUnnamed))
        } else {
            Err("Crate does not compile."@)
        },
        RefactorStep::Run(t) => if !success {
            Err(
                "Refactoring failed. Please fix errors above and re-run:\n    c2rust refactor "@
                    + join(refactor_args(t), seq![' ']),
            )
        } else if t == Transform::RenameUnnamed {
            Ok(RefactorStep::Run(Transform::ReorganizeDefinitions))
        } else {
            Ok(RefactorStep::Done)
        },
        RefactorStep::Done => Ok(RefactorStep::Done),
    }
}

impl Transform {
    /// The name of the transformation.
    pub fn name(&self) -> (res: &'static str)
        ensures
            res@ == transform_name(*self),
    {
        match self {
            Transform::RenameUnnamed => "rename_unnamed",
            Transform::ReorganizeDefinitions => "reorganize_definitions",
        }
    }

    /// The arguments that the refactorer gets for the transformation.
    pub fn args(&self) -> (res: Vec<String>)
        ensures
            strings(res@) == refactor_args(*self),
    {
        let mut args: Vec<String> = Vec::new();
        args.push("--cargo".to_owned());
        args.push("--rewrite-mode".to_owned());
        args.push("inplace".to_owned());
        args.push(self.name().to_owned());
        assert(strings(args@) =~= refactor_args(*self));
        args
    }
}

fn join_texts(list: &Vec<String>, sep: char) -> (res: Vec<char>)
    ensures
        res@ == join(strings(list@), seq![sep]),
{
    let ghost all = strings(list@);
    let mut out: Vec<char> = Vec::new();
    let mut i: usize = 0;
    while i < list.len()
        invariant
            i <= list@.len(),
            all == strings(list@),
            out@ == join(all.take(i as int), seq![sep]),
        decreases list@.len() - i,
    {
        assert(all.take(i + 1).drop_last() =~= all.take(i as int));
        assert(all.take(i + 1).last() == list@[i as int]@);
        if i > 0 {
            out.push(sep);
        }
        push_text(&mut out, list[i].as_str());
        i += 1;
        assert(out@ =~= join(all.take(i as int), seq![sep]));
    }
    assert(all.take(all.len() as int) =~= all);
    out
}

impl RefactorStep {
    /// The step after this one, or why refactoring stops here.
    pub fn next(&self, success: bool) -> (res: Result<RefactorStep, String>)
        ensures
            match res {
                Ok(step) => after_refactor_step(*self, success) == Ok::<RefactorStep, Seq<char>>(
                    step,
                ),
                Err(message) => after_refactor_step(*self, success) == Err::<
                    RefactorStep,
                    Seq<char>,
                >(message@),
            },
    {
        match self {
            RefactorStep::CheckCrate => {
                if success {
                    Ok(RefactorStep::Run(Transform::RenameUnnamed))
                } else {
                    Err("Crate does not compile.".to_owned())
                }
            },
            RefactorStep::Run(t) => {
                if !success {
                    let args = t.args();
                    let joined_args = join_texts(&args, ' ');
                    let mut message = chars_of(
                        "Refactoring failed. Please fix errors above and re-run:\n    c2rust refactor ",
                    );
                    push_all(&mut message, joined_args.as_slice());
                    Err(string_of(message.as_slice()))
                } else if *t == Transform::RenameUnnamed {
                    Ok(RefactorStep::Run(Transform::ReorganizeDefinitions))
                } else {
                    Ok(RefactorStep::Done)
                }
            },
            RefactorStep::Done => Ok(RefactorStep::Done),
        }
    }
}

/// Refactoring that nothing stops checks the crate, then runs the two
/// transformations in their order, and is then done.
pub proof fn law_refactoring_runs_all_transforms()
    ensures
        after_refactor_step(RefactorStep::CheckCrate, true) == Ok::<RefactorStep, Seq<char>>(
            RefactorStep::Run(Transform::RenameUnnamed),
        ),
        after_refactor_step(RefactorStep::Run(Transform::RenameUnnamed), true) == Ok::<
            RefactorStep,
            Seq<char>,
        >(RefactorStep::Run(Transform::ReorganizeDefinitions)),
        after_refactor_step(RefactorStep::Run(Transform::ReorganizeDefinitions), true) == Ok::<
            RefactorStep,
            Seq<char>,
        >(RefactorStep::Done),
        forall|step: RefactorStep|
            step != RefactorStep::Done ==> #[trigger] after_refactor_step(step, false) is Err,
        forall|success: bool| #[trigger]
            after_refactor_step(RefactorStep::Done, success) == Ok::<RefactorStep, Seq<char>>(
                RefactorStep::Done,
            ),
{
}

/// Whether definitions are reorganized. We only run the reorganization
/// refactoring if we emitted a fresh crate file.
pub fn reorganize_definitions(tcfg: &TranspilerConfig, has_crate_file: bool) -> (res: bool)
    ensures
        res == (has_crate_file && !tcfg.disable_refactoring && tcfg.reorganize_definitions),
        res == is_refactored(*tcfg, has_crate_file),
{
    has_crate_file && !tcfg.disable_refactoring && tcfg.reorganize_definitions
}

/// Whether the output of the refactorer is formatted.
pub fn formats_refactored(tcfg: &TranspilerConfig, has_crate_file: bool) -> (res: bool)
    ensures
        res == (has_crate_file && !tcfg.disable_refactoring && tcfg.reorganize_definitions
            && !tcfg.disable_rustfmt),
        res == (is_refactored(*tcfg, has_crate_file) && !tcfg.disable_rustfmt),
{
    reorganize_definitions(tcfg, has_crate_file) && !tcfg.disable_rustfmt
}

/// Whether the postprocessor is run.
pub fn run_postprocess(tcfg: &TranspilerConfig, has_crate_file: bool) -> (res: bool)
    ensures
        res == (has_crate_file && tcfg.postprocess),
        res == is_postprocessed(*tcfg, has_crate_file),
{
    has_crate_file && tcfg.postprocess
}

/// The directory that is so many levels above a path.
pub open spec fn levels_up(p: Seq<char>, n: nat) -> Option<Seq<char>>
    decreases n,
{
    if n == 0 {
        Some(p)
    } else {
        match levels_up(p, (n - 1) as nat) {
            Some(q) => parent_text(q),
            None => None,
        }
    }
}

/// The path has this file name.
pub open spec fn is_named(p: Seq<char>, name: Seq<char>) -> bool {
    file_name_of(path_of(p)) == Some(name)
}

/// The program to run for postprocessing: the bare name if it is found in
/// `$PATH`; else, if the running program is in `target/$profile/` of the
/// repository, the path of the postprocessor there; else why there is none.
pub open spec fn postprocess_program(in_path: bool, current_exe: Seq<char>) -> Result<
    Seq<char>,
    Seq<char>,
> {
    let exe = current_exe;
    let program = "c2rust-postprocess"@;
    if in_path {
        Ok(program)
    } else {
        match levels_up(exe, 1) {
            None => Err("no parent of "@ + current_exe),
            Some(_) => match levels_up(exe, 2) {
                None => Err("no grandparent of "@ + current_exe),
                Some(target_dir) => if !is_named(target_dir, "target"@) {
                    Err(
                        current_exe
                            + " not in `target/$profile/` and c2rust-postprocess not in $PATH"@,
                    )
                } else {
                    match levels_up(exe, 3) {
                        None => Err("no repo root ancestor of "@ + current_exe),
                        Some(root) => Ok(joined_text(joined_text(root, program), program)),
                    }
                },
            },
        }
    }
}

fn failure(before: &str, exe: &str, behind: &str) -> (res: String)
    ensures
        res@ == before@ + exe@ + behind@,
{
    let mut out = chars_of(before);
    push_text(&mut out, exe);
    push_text(&mut out, behind);
    string_of(out.as_slice())
}

/// Finds the postprocessor.
///
/// This assumes the subcommand executable is either in `$PATH`
/// or in the same relative directory as it is in the repo
/// and the current executable is in `target/$profile/`.
pub fn invoke_postprocess(in_path: bool, current_exe: &str) -> (res: Result<String, String>)
    ensures
        match res {
            Ok(program) => postprocess_program(in_path, current_exe@) == Ok::<
                Seq<char>,
                Seq<char>,
            >(program@),
            Err(message) => postprocess_program(in_path, current_exe@) == Err::<
                Seq<char>,
                Seq<char>,
            >(message@),
        },
{
    if in_path {
        return Ok("c2rust-postprocess".to_owned());
    }
    proof {
        reveal_with_fuel(levels_up, 4);
        reveal_strlit("");
        assert(current_exe@ + ""@ =~= current_exe@);
        assert(""@ + current_exe@ =~= current_exe@);
        assert("no parent of "@ + current_exe@ + ""@ =~= "no parent of "@ + current_exe@);
        assert("no grandparent of "@ + current_exe@ + ""@ =~= "no grandparent of "@ + current_exe@);
        assert("no repo root ancestor of "@ + current_exe@ + ""@ =~= "no repo root ancestor of "@
            + current_exe@);
    }
    let exe = SourcePath::parse(current_exe);
    let dir = match exe.parent() {
        Some(dir) => dir,
        None => return Err(failure("no parent of ", current_exe, "")),
    };
    let target_dir = match dir.parent() {
        Some(dir) => dir,
        None => return Err(failure("no grandparent of ", current_exe, "")),
    };
    let named_target = match target_dir.file_name() {
        Some(name) => same_text(name.as_str(), "target"),
        None => false,
    };
    if !named_target {
        return Err(
            failure(
                "",
                current_exe,
                " not in `target/$profile/` and c2rust-postprocess not in $PATH",
            ),
        );
    }
    let root = match target_dir.parent() {
        Some(dir) => dir,
        None => return Err(failure("no repo root ancestor of ", current_exe, "")),
    };
    let program = SourcePath::parse("c2rust-postprocess");
    Ok(root.join(&program).join(&program).to_text())
}

/// The arguments that the postprocessor gets.
pub fn postprocess_args(crate_file: &str) -> (res: Vec<String>)
    ensures
        strings(res@) == seq!["--update-rust"@, crate_file@],
{
    let mut args: Vec<String> = Vec::new();
    args.push("--update-rust".to_owned());
    args.push(crate_file.to_owned());
    assert(strings(args@) =~= seq!["--update-rust"@, crate_file@]);
    args
}

/// A file by itself is compiled by `clang` with no argument but the file, from
/// the current directory.
pub proof fn law_files_are_compiled_by_themselves(file: Seq<char>)
    ensures
        ({
            let cmd = command_for(file);
            &&& cmd.file == file
            &&& cmd.directory == "."@
            &&& cmd.arguments.len() == 2 && cmd.arguments[0] == "clang"@ && cmd.arguments[1] == file
            &&& cmd.command is None && cmd.output is None
        }),
{
}

/// Clang gets more arguments on macOS only: blocks are always off, and where
/// there is no `/usr/include` the one of the SDK stands in for it, which is found
/// by the line that `xcrun` prints.
pub proof fn law_clang_args(usr_include_exists: bool, sdk: Seq<char>, end: char)
    ensures
        extra_clang_args(false, usr_include_exists, sdk).len() == 0,
        extra_clang_args(true, true, sdk) == seq!["-fno-blocks"@],
        extra_clang_args(true, false, sdk.push(end)) == seq![
            "-isystem"@,
            sdk + "/usr/include"@,
            "-fno-blocks"@,
        ],
{
    assert(sdk.push(end).drop_last() =~= sdk);
}

/// A transformation is asked for by its name, behind the same arguments for each,
/// and one that fails is reported with the command to run again.
pub proof fn law_refactorer_args(t: Transform)
    ensures
        ({
            let name = match t {
                Transform::RenameUnnamed => "rename_unnamed"@,
                Transform::ReorganizeDefinitions => "reorganize_definitions"@,
            };
            &&& refactor_args(t) == seq!["--cargo"@, "--rewrite-mode"@, "inplace"@, name]
            &&& after_refactor_step(RefactorStep::Run(t), false) == Err::<RefactorStep, Seq<char>>(
                "Refactoring failed. Please fix errors above and re-run:\n    c2rust refactor "@ + (
                "--cargo"@ + seq![' '] + "--rewrite-mode"@ + seq![' '] + "inplace"@ + seq![' ']
                    + name),
            )
        }),
        after_refactor_step(RefactorStep::CheckCrate, false) == Err::<RefactorStep, Seq<char>>(
            "Crate does not compile."@,
        ),
{
    let args = refactor_args(t);
    let three = seq!["--cargo"@, "--rewrite-mode"@, "inplace"@];
    let two = seq!["--cargo"@, "--rewrite-mode"@];
    let one = seq!["--cargo"@];
    assert(args.drop_last() =~= three);
    assert(three.drop_last() =~= two);
    assert(two.drop_last() =~= one);
    reveal_with_fuel(join, 5);
}

/// The postprocessor is the one in `$PATH` if there is one. Otherwise it is the
/// one of the repository that the running program was built in, and there is none
/// if the program is not in a directory of `target`.
pub proof fn law_postprocessor_is_found(
    root: Seq<char>,
    target: Seq<char>,
    profile: Seq<char>,
    exe: Seq<char>,
)
    requires
        ends_with_component(root),
        is_name(target),
        is_name(profile),
        is_name(exe),
    ensures
        ({
            let path = root + "/"@ + target + "/"@ + profile + "/"@ + exe;
            &&& postprocess_program(true, path) == Ok::<Seq<char>, Seq<char>>(
                "c2rust-postprocess"@,
            )
            &&& postprocess_program(false, path) == if target == "target"@ {
                Ok::<Seq<char>, Seq<char>>(
                    root + "/"@ + "c2rust-postprocess"@ + "/"@ + "c2rust-postprocess"@,
                )
            } else {
                Err(path + " not in `target/$profile/` and c2rust-postprocess not in $PATH"@)
            }
        }),
{
    reveal_strlit("/");
    reveal_strlit("c2rust-postprocess");
    reveal_with_fuel(levels_up, 4);
    let program = "c2rust-postprocess"@;
    let target_dir = root + "/"@ + target;
    let dir = target_dir + "/"@ + profile;
    let path = dir + "/"@ + exe;
    lemma_below(root, target);
    lemma_below(target_dir, profile);
    law_files_in_directories(root, target, program, program);
    law_files_in_directories(target_dir, profile, program, program);
    law_files_in_directories(dir, exe, program, program);
    assert(program[0] == 'c');
    law_joining_texts(root, program);
    let inner = root + "/"@ + program;
    assert(inner.last() == program.last());
    assert(program.last() == 's');
    law_joining_texts(inner, program);
}

/// A file below a directory ends with a component too.
proof fn lemma_below(dir: Seq<char>, name: Seq<char>)
    requires
        is_name(name),
    ensures
        ends_with_component(dir + "/"@ + name),
{
    reveal_strlit("/");
    reveal_strlit(".");
    let file = dir + "/"@ + name;
    let n = name.len() as int;
    assert(file.last() == name[n - 1]);
    assert(name.contains(name[n - 1]));
    if n == 1 {
        assert("."@.len() == 1);
        if name[0] == '.' {
            assert(name =~= "."@);
        }
    } else {
        assert(file[file.len() - 2] == name[n - 2]);
        assert(name.contains(name[n - 2]));
    }
}

/// The refactorer is run on the crate.
pub open spec fn is_refactored(tcfg: TranspilerConfig, has_crate_file: bool) -> bool {
    has_crate_file && !tcfg.disable_refactoring && tcfg.reorganize_definitions
}

/// The postprocessor is run on the crate.
pub open spec fn is_postprocessed(tcfg: TranspilerConfig, has_crate_file: bool) -> bool {
    has_crate_file && tcfg.postprocess
}

/// Nothing is run on a crate without a fresh crate file. On any other the
/// refactorer is run exactly if definitions are to be reorganized and refactoring
/// is not off, and the postprocessor exactly if it is asked for.
pub proof fn law_tools_run_on_fresh_crates(tcfg: TranspilerConfig)
    ensures
        !is_refactored(tcfg, false) && !is_postprocessed(tcfg, false),
        is_postprocessed(tcfg, true) == tcfg.postprocess,
        tcfg.disable_refactoring ==> !is_refactored(tcfg, true),
        !tcfg.disable_refactoring ==> is_refactored(tcfg, true) == tcfg.reorganize_definitions,
{
}

/// A program that is run by its bare name has no directory above it to search, and
/// one below a relative `target` leads to the postprocessor in the current
/// directory.
pub proof fn law_relative_programs(profile: Seq<char>, exe: Seq<char>)
    requires
        is_name(profile),
        is_name(exe),
    ensures
        postprocess_program(false, exe) == Err::<Seq<char>, Seq<char>>(
            "no grandparent of "@ + exe,
        ),
        postprocess_program(false, Seq::empty()) == Err::<Seq<char>, Seq<char>>(
            "no parent of "@ + Seq::empty(),
        ),
        postprocess_program(false, "target"@ + "/"@ + profile + "/"@ + exe) == Ok::<
            Seq<char>,
            Seq<char>,
        >("c2rust-postprocess"@ + "/"@ + "c2rust-postprocess"@),
{
    reveal_strlit("");
    reveal_strlit("/");
    reveal_strlit("target");
    reveal_strlit("c2rust-postprocess");
    reveal_strlit(".");
    reveal_strlit("..");
    reveal_with_fuel(levels_up, 4);
    let none = Seq::<char>::empty();
    let program = "c2rust-postprocess"@;
    let target = "target"@;
    assert(""@ =~= none);
    assert(target.len() == 6 && "."@.len() == 1 && ".."@.len() == 2);
    assert(is_name(target)) by {
        if target.contains('/') {
            let k = choose|k: int| 0 <= k < target.len() && target[k] == '/';
        }
    }
    law_files_without_directories(exe, none, none);
    law_files_without_directories(target, none, none);
    law_no_parent_of_nothing();
    assert(ends_with_component(target)) by {
        assert(target.last() == 't');
    }
    let dir = target + "/"@ + profile;
    lemma_below(target, profile);
    law_files_in_directories(target, profile, none, none);
    law_files_in_directories(dir, exe, none, none);
    assert(program[0] == 'c');
    law_joining_texts(none, program);
    assert(program.last() == 's');
    law_joining_texts(program, program);
}

/// Outside `$PATH`, the way to the postprocessor leads from the running program up
/// to its directory, to the directory above that, which has to be called
/// `target`, and to the one above that; each step that cannot be made is reported
/// as such.
pub proof fn law_way_to_the_postprocessor(exe: Seq<char>)
    ensures
        postprocess_program(false, exe) == match parent_text(exe) {
            None => Err::<Seq<char>, Seq<char>>("no parent of "@ + exe),
            Some(dir) => match parent_text(dir) {
                None => Err("no grandparent of "@ + exe),
                Some(target) => if file_name_of(path_of(target)) != Some("target"@) {
                    Err(exe + " not in `target/$profile/` and c2rust-postprocess not in $PATH"@)
                } else {
                    match parent_text(target) {
                        None => Err("no repo root ancestor of "@ + exe),
                        Some(root) => Ok(
                            joined_text(
                                joined_text(root, "c2rust-postprocess"@),
                                "c2rust-postprocess"@,
                            ),
                        ),
                    }
                },
            },
        },
        postprocess_program(true, exe) == Ok::<Seq<char>, Seq<char>>("c2rust-postprocess"@),
{
    reveal_with_fuel(levels_up, 4);
}

/// The arguments that Clang gets: its own and those of the user.
pub open spec fn all_clang_args(args: Seq<Seq<char>>, user_args: Seq<Seq<char>>) -> Seq<Seq<char>> {
    args + user_args
}

/// The arguments of the user come last, so that they have the last word, and none
/// is lost.
pub proof fn law_user_args_come_last(args: Seq<Seq<char>>, user_args: Seq<Seq<char>>)
    ensures
        all_clang_args(args, user_args).take(args.len() as int) == args,
        all_clang_args(args, user_args).skip(args.len() as int) == user_args,
{
    assert(all_clang_args(args, user_args).take(args.len() as int) =~= args);
    assert(all_clang_args(args, user_args).skip(args.len() as int) =~= user_args);
}

} // verus!
