//! Translating one file, step by step: what to do next after each event, and
//! how long it took.

use crate::config::TranspilerConfig;
use crate::path_laws::{law_files_in_directories, law_files_without_directories};
use crate::paths::{
    file_name_of, is_name, law_with_extension, path_of, stem_of, with_extension,
    with_extension_text, SourcePath,
};
use crate::text::{chars_of, push_text, string_of};
use vstd::prelude::*;

verus! {

/// How the translation of a file ended.
#[derive(Clone, Copy, PartialEq, Eq, Structural, Debug)]
pub enum FileOutcome {
    /// The output was written.
    Transpiled,
    /// Nothing was attempted: the output is there already, or the input is not.
    Skipped,
    /// The syntax tree could not be exported.
    ExportFailed,
    /// A panic ended it.
    Panicked,
}

/// How far the translation of a file has come.
#[derive(Clone, Copy, PartialEq, Eq, Structural, Debug)]
pub enum Phase {
    Start,
    Exporting,
    Converting,
    Translating,
    WritingDeclMap,
    Writing,
    Formatting,
    Ended(FileOutcome),
}

/// What has happened.
#[derive(Debug)]
pub enum SingleEvent {
    /// It was looked up whether output and input exist.
    Looked { output_exists: bool, input_exists: bool },
    /// The syntax tree was exported.
    Exported,
    /// The syntax tree could not be exported, for the reason given.
    ExportFailed(String),
    /// The syntax tree was converted to a typed one.
    Converted { invalid_ast: bool },
    /// The tree was translated, with or without a map of the C declarations.
    Translated { has_decl_map: bool },
    /// The map of the C declarations was written.
    DeclMapWritten,
    /// The output was written.
    OutputWritten,
    /// The output was formatted.
    Formatted,
}

/// What to do next.
#[derive(Debug)]
pub enum SingleAction {
    /// Warn with this message and give the file up.
    GiveUp(String),
    /// Export the syntax tree.
    Export,
    /// Report progress with this message and convert the tree.
    Convert(String),
    /// Translate the tree.
    Translate,
    /// Write the map of the C declarations to this file.
    WriteDeclMap(SourcePath),
    /// Write the output to this file.
    WriteOutput(SourcePath),
    /// Format this file.
    Format(SourcePath),
    /// Panic with this message.
    Panic(String),
    /// The file is done.
    Finish,
}

/// What a [`SingleAction`] says.
#[verifier::ext_equal]
pub enum ActionView {
    GiveUp(Seq<char>),
    Export,
    Convert(Seq<char>),
    Translate,
    WriteDeclMap(Seq<char>),
    WriteOutput(Seq<char>),
    Format(Seq<char>),
    Panic(Seq<char>),
    Finish,
}

impl View for SingleAction {
    type V = ActionView;

    open spec fn view(&self) -> ActionView {
        match self {
            SingleAction::GiveUp(message) => ActionView::GiveUp(message@),
            SingleAction::Export => ActionView::Export,
            SingleAction::Convert(message) => ActionView::Convert(message@),
            SingleAction::Translate => ActionView::Translate,
            SingleAction::WriteDeclMap(path) => ActionView::WriteDeclMap(path.text@),
            SingleAction::WriteOutput(path) => ActionView::WriteOutput(path.text@),
            SingleAction::Format(path) => ActionView::Format(path.text@),
            SingleAction::Panic(message) => ActionView::Panic(message@),
            SingleAction::Finish => ActionView::Finish,
        }
    }
}

/// The translation of one file.
#[derive(Debug)]
pub struct SingleRun {
    pub input: SourcePath,
    pub output: SourcePath,
    pub overwrite_existing: bool,
    pub fail_on_error: bool,
    pub disable_rustfmt: bool,
}

/// The event is one that the phase waits for.
pub open spec fn expects(phase: Phase, event: SingleEvent) -> bool {
    match phase {
        Phase::Start => event is Looked,
        Phase::Exporting => event is Exported || event is ExportFailed,
        Phase::Converting => event is Converted,
        Phase::Translating => event is Translated,
        Phase::WritingDeclMap => event is DeclMapWritten,
        Phase::Writing => event is OutputWritten,
        Phase::Formatting => event is Formatted,
        Phase::Ended(_) => false,
    }
}

/// The next phase and what to do in it.
pub open spec fn next_step(run: SingleRun, phase: Phase, event: SingleEvent) -> (
    Phase,
    ActionView,
) {
    match event {
        SingleEvent::Looked { output_exists, input_exists } => if output_exists
            && !run.overwrite_existing {
            (
                Phase::Ended(FileOutcome::Skipped),
                ActionView::GiveUp("Skipping existing file "@ + run.output.text@),
            )
        } else if !input_exists {
            (
                Phase::Ended(FileOutcome::Skipped),
                ActionView::GiveUp(
                    "Input C file "@ + run.input.text@ + " does not exist, skipping!"@,
                ),
            )
        } else {
            (Phase::Exporting, ActionView::Export)
        },
        SingleEvent::ExportFailed(error) => (
            Phase::Ended(FileOutcome::ExportFailed),
            ActionView::GiveUp(
                "Error: "@ + error@ + ". Skipping "@ + run.input.text@
                    + "; is it well-formed C?"@,
            ),
        ),
        SingleEvent::Exported => (
            Phase::Converting,
            ActionView::Convert("Transpiling "@ + file_name_of(run.input@).unwrap()),
        ),
        SingleEvent::Converted { invalid_ast } => if invalid_ast && run.fail_on_error {
            (Phase::Ended(FileOutcome::Panicked), ActionView::Panic("Clang AST was invalid"@))
        } else {
            (Phase::Translating, ActionView::Translate)
        },
        SingleEvent::Translated { has_decl_map } => if has_decl_map {
            (
                Phase::WritingDeclMap,
                ActionView::WriteDeclMap(with_extension_text(run.output.text@, "c_decls.json"@)),
            )
        } else {
            (Phase::Writing, ActionView::WriteOutput(run.output.text@))
        },
        SingleEvent::DeclMapWritten => (Phase::Writing, ActionView::WriteOutput(run.output.text@)),
        SingleEvent::OutputWritten => if run.disable_rustfmt {
            (Phase::Ended(FileOutcome::Transpiled), ActionView::Finish)
        } else {
            (Phase::Formatting, ActionView::Format(run.output.text@))
        },
        SingleEvent::Formatted => (Phase::Ended(FileOutcome::Transpiled), ActionView::Finish),
    }
}

fn message3(before: &str, middle: &str, behind: &str) -> (res: String)
    ensures
        res@ == before@ + middle@ + behind@,
{
    let mut out = chars_of(before);
    push_text(&mut out, middle);
    push_text(&mut out, behind);
    string_of(out.as_slice())
}

fn message2(before: &str, behind: &str) -> (res: String)
    ensures
        res@ == before@ + behind@,
{
    let mut out = chars_of(before);
    push_text(&mut out, behind);
    string_of(out.as_slice())
}

impl SingleRun {
    /// The translation of a file. In a batch the output is not formatted.
    pub fn new(
        tcfg: &TranspilerConfig,
        input: SourcePath,
        output: SourcePath,
        in_batch: bool,
    ) -> (res: Self)
        ensures
            res == (SingleRun {
                input,
                output,
                overwrite_existing: tcfg.overwrite_existing,
                fail_on_error: tcfg.fail_on_error,
                disable_rustfmt: tcfg.disable_rustfmt || in_batch,
            }),
            res == run_of(*tcfg, input, output, in_batch),
    {
        SingleRun {
            input,
            output,
            overwrite_existing: tcfg.overwrite_existing,
            fail_on_error: tcfg.fail_on_error,
            disable_rustfmt: tcfg.disable_rustfmt || in_batch,
        }
    }

    /// The next phase and what to do in it, after an event that the phase waits
    /// for.
    pub fn step(&self, phase: Phase, event: &SingleEvent) -> (res: (Phase, SingleAction))
        requires
            expects(phase, *event),
            file_name_of(self.input@) is Some,
        ensures
            (res.0, res.1@) == next_step(*self, phase, *event),
    {
        match event {
            SingleEvent::Looked { output_exists, input_exists } => {
                if *output_exists && !self.overwrite_existing {
                    let path = self.output.to_text();
                    let message = message2("Skipping existing file ", path.as_str());
                    (Phase::Ended(FileOutcome::Skipped), SingleAction::GiveUp(message))
                } else if !*input_exists {
                    let path = self.input.to_text();
                    let message = message3(
                        "Input C file ",
                        path.as_str(),
                        " does not exist, skipping!",
                    );
                    (Phase::Ended(FileOutcome::Skipped), SingleAction::GiveUp(message))
                } else {
                    (Phase::Exporting, SingleAction::Export)
                }
            },
            SingleEvent::ExportFailed(error) => {
                let path = self.input.to_text();
                let head = message3("Error: ", error.as_str(), ". Skipping ");
                let message = message3(head.as_str(), path.as_str(), "; is it well-formed C?");
                (Phase::Ended(FileOutcome::ExportFailed), SingleAction::GiveUp(message))
            },
            SingleEvent::Exported => {
                let file = self.input.file_name().unwrap();
                let message = message2("Transpiling ", file.as_str());
                (Phase::Converting, SingleAction::Convert(message))
            },
            SingleEvent::Converted { invalid_ast } => {
                if *invalid_ast && self.fail_on_error {
                    (
                        Phase::Ended(FileOutcome::Panicked),
                        SingleAction::Panic("Clang AST was invalid".to_owned()),
                    )
                } else {
                    (Phase::Translating, SingleAction::Translate)
                }
            },
            SingleEvent::Translated { has_decl_map } => {
                if *has_decl_map {
                    proof {
                        reveal_strlit("c_decls.json");
                    }
                    let path = self.output.with_extension("c_decls.json");
                    (Phase::WritingDeclMap, SingleAction::WriteDeclMap(path))
                } else {
                    (Phase::Writing, SingleAction::WriteOutput(self.output.duplicate()))
                }
            },
            SingleEvent::DeclMapWritten => {
                (Phase::Writing, SingleAction::WriteOutput(self.output.duplicate()))
            },
            SingleEvent::OutputWritten => {
                if self.disable_rustfmt {
                    (Phase::Ended(FileOutcome::Transpiled), SingleAction::Finish)
                } else {
                    (Phase::Formatting, SingleAction::Format(self.output.duplicate()))
                }
            },
            SingleEvent::Formatted => (
                Phase::Ended(FileOutcome::Transpiled),
                SingleAction::Finish,
            ),
        }
    }
}

/// How far along a phase is.
pub open spec fn progress(phase: Phase) -> int {
    match phase {
        Phase::Start => 0,
        Phase::Exporting => 1,
        Phase::Converting => 2,
        Phase::Translating => 3,
        Phase::WritingDeclMap => 4,
        Phase::Writing => 5,
        Phase::Formatting => 6,
        Phase::Ended(_) => 7,
    }
}

/// Every step leads further, so that the translation of a file ends after at
/// most seven.
pub proof fn law_steps_lead_on(run: SingleRun, phase: Phase, event: SingleEvent)
    requires
        expects(phase, event),
    ensures
        progress(phase) < progress(next_step(run, phase, event).0) <= 7,
{
}

/// A file counts as translated only once its output was written; it counts as
/// skipped only before the export; and whatever is written goes to the output
/// path, or beside it for the map of the C declarations.
pub proof fn law_outcomes(run: SingleRun, phase: Phase, event: SingleEvent)
    requires
        expects(phase, event),
    ensures
        next_step(run, phase, event).0 == Phase::Ended(FileOutcome::Transpiled) ==> phase
            == Phase::Writing || phase == Phase::Formatting,
        next_step(run, phase, event).0 == Phase::Ended(FileOutcome::Skipped) ==> phase
            == Phase::Start,
        next_step(run, phase, event).1 matches ActionView::WriteOutput(path) ==> path
            == run.output.text@,
        next_step(run, phase, event).1 matches ActionView::WriteDeclMap(path) ==> path_of(
            path,
        ).len() == run.output@.len() && path_of(path).drop_last() == run.output@.drop_last(),
        run.overwrite_existing || phase != Phase::Start || (event matches SingleEvent::Looked {
            output_exists,
            ..
        } && output_exists ==> next_step(run, phase, event).1 is GiveUp),
{
    reveal_strlit("c_decls.json");
    law_with_extension(run.output.text@, "c_decls.json"@);
    let path = with_extension(run.output@, "c_decls.json"@);
    if file_name_of(run.output@) is Some {
        assert(path.drop_last() =~= run.output@.drop_last());
    }
}

/// Wall-clock breakdown of the translation of one file, in nanoseconds, split
/// between what happens in Clang and what comes after that.
#[derive(Clone, Copy, PartialEq, Eq, Structural, Debug)]
pub struct PhaseTimings {
    /// Time for the export of the syntax tree: Clang invocation (parsing,
    /// preprocessing and export).
    pub ast_export_ns: u64,
    /// Time from just after the export to the end: typed-AST conversion,
    /// translation, and the file write with the optional formatting pass.
    pub translate_ns: u64,
    /// Total wall-clock for the whole call, timed independently of the
    /// two phases above (not their sum) as a sanity check that no
    /// untimed work sneaks in between/around them.
    pub total_ns: u64,
}

/// The times that are reported: the total always, the export if it was attempted
/// and no panic came in between, the rest only for a translated file.
pub open spec fn reported_timings(outcome: FileOutcome, measured: PhaseTimings) -> PhaseTimings {
    PhaseTimings {
        ast_export_ns: if outcome is Transpiled || outcome is ExportFailed {
            measured.ast_export_ns
        } else {
            0
        },
        translate_ns: if outcome is Transpiled {
            measured.translate_ns
        } else {
            0
        },
        total_ns: measured.total_ns,
    }
}

impl Default for PhaseTimings {
    fn default() -> (res: Self)
        ensures
            res == (PhaseTimings { ast_export_ns: 0, translate_ns: 0, total_ns: 0 }),
    {
        PhaseTimings { ast_export_ns: 0, translate_ns: 0, total_ns: 0 }
    }
}

impl PhaseTimings {
    /// The times that are reported for a file that ended this way.
    pub fn reported(&self, outcome: FileOutcome) -> (res: PhaseTimings)
        ensures
            res == reported_timings(outcome, *self),
    {
        let mut res = PhaseTimings::default();
        res.total_ns = self.total_ns;
        match outcome {
            FileOutcome::Transpiled => {
                res.ast_export_ns = self.ast_export_ns;
                res.translate_ns = self.translate_ns;
            },
            FileOutcome::ExportFailed => {
                res.ast_export_ns = self.ast_export_ns;
            },
            _ => {},
        }
        res
    }
}

/// A file is given up at the start exactly for a reason: the output exists and is
/// not to be overwritten, or the input does not exist. In every other case the
/// syntax tree is exported.
pub proof fn law_files_are_skipped_for_a_reason(
    run: SingleRun,
    output_exists: bool,
    input_exists: bool,
)
    ensures
        ({
            let event = SingleEvent::Looked { output_exists, input_exists };
            let (phase, action) = next_step(run, Phase::Start, event);
            let is_kept = output_exists && !run.overwrite_existing;
            &&& is_kept || !input_exists <==> phase == Phase::Ended(FileOutcome::Skipped)
            &&& is_kept || !input_exists <==> action is GiveUp
            &&& !is_kept && input_exists <==> phase == Phase::Exporting
            &&& !is_kept && input_exists <==> action == ActionView::Export
            &&& is_kept ==> action == ActionView::GiveUp(
                "Skipping existing file "@ + run.output.text@,
            )
            &&& !is_kept && !input_exists ==> action == ActionView::GiveUp(
                "Input C file "@ + run.input.text@ + " does not exist, skipping!"@,
            )
        }),
{
}

/// A file whose syntax tree cannot be exported is given up with the reason and
/// its path. Otherwise the tree is converted, and its file name reported.
pub proof fn law_exports(run: SingleRun, event: SingleEvent)
    requires
        expects(Phase::Exporting, event),
    ensures
        match event {
            SingleEvent::ExportFailed(error) => next_step(run, Phase::Exporting, event) == (
                Phase::Ended(FileOutcome::ExportFailed),
                ActionView::GiveUp(
                    "Error: "@ + error@ + ". Skipping "@ + run.input.text@
                        + "; is it well-formed C?"@,
                ),
            ),
            _ => next_step(run, Phase::Exporting, event) == (
                Phase::Converting,
                ActionView::Convert("Transpiling "@ + file_name_of(run.input@).unwrap()),
            ),
        },
{
}

/// A converted tree is translated, unless it was invalid and errors are to be
/// fatal.
pub proof fn law_conversions(run: SingleRun, invalid_ast: bool)
    ensures
        ({
            let event = SingleEvent::Converted { invalid_ast };
            let (phase, action) = next_step(run, Phase::Converting, event);
            if invalid_ast && run.fail_on_error {
                phase == Phase::Ended(FileOutcome::Panicked) && action == ActionView::Panic(
                    "Clang AST was invalid"@,
                )
            } else {
                phase == Phase::Translating && action == ActionView::Translate
            }
        }),
{
}

/// A translation is always written to the output path, after the map of the C
/// declarations if there is one, and then formatted unless that is off.
pub proof fn law_translations_are_written(run: SingleRun)
    ensures
        next_step(run, Phase::Translating, SingleEvent::Translated { has_decl_map: false }) == (
            Phase::Writing,
            ActionView::WriteOutput(run.output.text@),
        ),
        next_step(run, Phase::Translating, SingleEvent::Translated { has_decl_map: true }).0
            == Phase::WritingDeclMap,
        next_step(run, Phase::Translating, SingleEvent::Translated { has_decl_map: true }).1
            is WriteDeclMap,
        next_step(run, Phase::WritingDeclMap, SingleEvent::DeclMapWritten) == (
            Phase::Writing,
            ActionView::WriteOutput(run.output.text@),
        ),
        next_step(run, Phase::Writing, SingleEvent::OutputWritten) == if run.disable_rustfmt {
            (Phase::Ended(FileOutcome::Transpiled), ActionView::Finish)
        } else {
            (Phase::Formatting, ActionView::Format(run.output.text@))
        },
        next_step(run, Phase::Formatting, SingleEvent::Formatted) == (
            Phase::Ended(FileOutcome::Transpiled),
            ActionView::Finish,
        ),
{
}

/// Every phase but an end waits for the events of what it does, and an end for
/// none.
pub proof fn law_phases_wait_for_their_events(phase: Phase, event: SingleEvent)
    ensures
        expects(phase, event) <==> {
            ||| phase == Phase::Start && event is Looked
            ||| phase == Phase::Exporting && (event is Exported || event is ExportFailed)
            ||| phase == Phase::Converting && event is Converted
            ||| phase == Phase::Translating && event is Translated
            ||| phase == Phase::WritingDeclMap && event is DeclMapWritten
            ||| phase == Phase::Writing && event is OutputWritten
            ||| phase == Phase::Formatting && event is Formatted
        },
{
}

/// The times of a translated file are reported as they were measured. Of a file
/// whose export failed, the time after it is 0; of any other, both phases are.
pub proof fn law_times_are_reported(outcome: FileOutcome, measured: PhaseTimings)
    ensures
        reported_timings(FileOutcome::Transpiled, measured) == measured,
        reported_timings(outcome, measured).total_ns == measured.total_ns,
        outcome == FileOutcome::ExportFailed ==> reported_timings(outcome, measured).ast_export_ns
            == measured.ast_export_ns && reported_timings(outcome, measured).translate_ns == 0,
        outcome == FileOutcome::Skipped || outcome == FileOutcome::Panicked ==> reported_timings(
            outcome,
            measured,
        ).ast_export_ns == 0 && reported_timings(outcome, measured).translate_ns == 0,
{
}

/// The map of the C declarations goes beside the output, under its name with
/// another extension.
pub proof fn law_declarations_go_beside_the_output(run: SingleRun, dir: Seq<char>, name: Seq<char>)
    requires
        is_name(name),
        dir.len() > 0,
    ensures
        ({
            let event = SingleEvent::Translated { has_decl_map: true };
            let (phase, action) = next_step(run, Phase::Translating, event);
            &&& phase == Phase::WritingDeclMap
            &&& run.output.text@ == dir + "/"@ + name ==> action == ActionView::WriteDeclMap(
                dir + "/"@ + (stem_of(name) + "."@ + "c_decls.json"@),
            )
            &&& run.output.text@ == name ==> action == ActionView::WriteDeclMap(
                stem_of(name) + "."@ + "c_decls.json"@,
            )
        }),
{
    reveal_strlit("c_decls.json");
    law_files_in_directories(dir, name, "c_decls.json"@, "c_decls.json"@);
    law_files_without_directories(name, "c_decls.json"@, "c_decls.json"@);
}

/// The translation of a file under a configuration.
pub open spec fn run_of(
    tcfg: TranspilerConfig,
    input: SourcePath,
    output: SourcePath,
    in_batch: bool,
) -> SingleRun {
    SingleRun {
        input,
        output,
        overwrite_existing: tcfg.overwrite_existing,
        fail_on_error: tcfg.fail_on_error,
        disable_rustfmt: tcfg.disable_rustfmt || in_batch,
    }
}

/// A run has the input and the output that it is made for. Under a configuration,
/// an existing output is replaced exactly if it says so, and a written output is
/// formatted exactly if formatting is not off and the file is not one of a batch.
pub proof fn law_configurations_are_followed(
    tcfg: TranspilerConfig,
    input: SourcePath,
    output: SourcePath,
    in_batch: bool,
)
    ensures
        ({
            let run = run_of(tcfg, input, output, in_batch);
            let found = SingleEvent::Looked { output_exists: true, input_exists: true };
            let broken = SingleEvent::Converted { invalid_ast: true };
            &&& run.input == input && run.output == output
            &&& next_step(run, Phase::Start, found).1 is Export <==> tcfg.overwrite_existing
            &&& next_step(run, Phase::Converting, broken).1 is Panic <==> tcfg.fail_on_error
            &&& next_step(run, Phase::Writing, SingleEvent::OutputWritten).1 is Format
                <==> !tcfg.disable_rustfmt && !in_batch
        }),
{
}

} // verus!
