//! The results of translating many files in one process.

use crate::diagnostics::{level_label, record_views, CapturedRecord, Level, RecordView};
use crate::errors::opt_text;
use crate::single::{reported_timings, FileOutcome, PhaseTimings};
use vstd::prelude::*;

verus! {

/// [`CapturedRecord`] with `level` rendered as text (`"warning"`/`"error"`/...),
/// so that readers need not know the levels.
#[derive(Debug)]
pub struct CapturedLogRecord {
    pub level: String,
    pub target: String,
    pub message: String,
}

/// What a [`CapturedLogRecord`] says.
#[verifier::ext_equal]
pub struct LogRecordView {
    pub level: Seq<char>,
    pub target: Seq<char>,
    pub message: Seq<char>,
}

impl View for CapturedLogRecord {
    type V = LogRecordView;

    open spec fn view(&self) -> LogRecordView {
        LogRecordView { level: self.level@, target: self.target@, message: self.message@ }
    }
}

/// The views of a list of records.
pub open spec fn log_record_views(records: Seq<CapturedLogRecord>) -> Seq<LogRecordView> {
    Seq::new(records.len(), |i: int| records[i]@)
}

/// A record with its level as text.
pub open spec fn rendered_record(r: RecordView) -> LogRecordView {
    LogRecordView { level: level_label(r.level), target: r.target, message: r.message }
}

impl CapturedLogRecord {
    /// The record with its level as text.
    pub fn from(r: &CapturedRecord) -> (res: Self)
        ensures
            res@ == rendered_record(r@),
    {
        CapturedLogRecord {
            level: r.level.label().to_owned(),
            target: r.target.clone(),
            message: r.message.clone(),
        }
    }
}

/// What was observed while one file was translated.
#[derive(Debug)]
pub struct FileRun {
    /// The input path exactly as it was given.
    pub file: String,
    pub outcome: FileOutcome,
    /// The message of a panic, if one was recorded.
    pub panic_message: Option<String>,
    pub records: Vec<CapturedRecord>,
    pub captured_stderr: String,
    pub timings: PhaseTimings,
}

/// Per-file outcome: everything a caller needs to classify the result for this
/// one file without scraping standard error.
#[derive(Debug)]
pub struct FileTranspileResult {
    /// The input path exactly as it was given, so that a caller can match this
    /// back to the entry it submitted.
    pub file: String,
    /// The file was translated, or it was skipped before its syntax tree was
    /// exported because the output exists and is not to be overwritten or the
    /// input does not exist.
    pub ok: bool,
    /// The message of the panic that ended the translation, if one did.
    pub panic_message: Option<String>,
    /// Every record that was logged for this file.
    pub log_records: Vec<CapturedLogRecord>,
    /// Everything that was written to standard error for this file.
    pub captured_stderr: String,
    /// How long it took. The total is always given; the two phases stay at 0
    /// where they were not reached.
    pub phase_timings: PhaseTimings,
}

/// What a [`FileTranspileResult`] says.
#[verifier::ext_equal]
pub struct ResultView {
    pub file: Seq<char>,
    pub ok: bool,
    pub panic_message: Option<Seq<char>>,
    pub log_records: Seq<LogRecordView>,
    pub captured_stderr: Seq<char>,
    pub phase_timings: PhaseTimings,
}

impl View for FileTranspileResult {
    type V = ResultView;

    open spec fn view(&self) -> ResultView {
        ResultView {
            file: self.file@,
            ok: self.ok,
            panic_message: opt_text(self.panic_message),
            log_records: log_record_views(self.log_records@),
            captured_stderr: self.captured_stderr@,
            phase_timings: self.phase_timings,
        }
    }
}

/// The message that is reported for a file: that of the panic that ended it, or
/// a stand-in if none was recorded.
pub open spec fn reported_panic(outcome: FileOutcome, recorded: Option<Seq<char>>) -> Option<
    Seq<char>,
> {
    if outcome is Panicked {
        match recorded {
            Some(message) => Some(message),
            None => Some("(panic message not captured)"@),
        }
    } else {
        None
    }
}

/// The result for a file.
pub open spec fn file_result(run: FileRun) -> ResultView {
    ResultView {
        file: run.file@,
        ok: run.outcome is Transpiled || run.outcome is Skipped,
        panic_message: reported_panic(run.outcome, opt_text(run.panic_message)),
        log_records: record_views(run.records@).map_values(|r: RecordView| rendered_record(r)),
        captured_stderr: run.captured_stderr@,
        phase_timings: reported_timings(run.outcome, run.timings),
    }
}

fn render_records(records: &Vec<CapturedRecord>) -> (res: Vec<CapturedLogRecord>)
    ensures
        log_record_views(res@) == record_views(records@).map_values(
            |r: RecordView| rendered_record(r),
        ),
{
    let mut out: Vec<CapturedLogRecord> = Vec::new();
    let mut i: usize = 0;
    while i < records.len()
        invariant
            i <= records@.len(),
            out@.len() == i,
            forall|k: int| 0 <= k < i ==> (#[trigger] out@[k])@ == rendered_record(records@[k]@),
        decreases records@.len() - i,
    {
        out.push(CapturedLogRecord::from(&records[i]));
        i += 1;
    }
    assert(log_record_views(out@) =~= record_views(records@).map_values(
        |r: RecordView| rendered_record(r),
    ));
    out
}

impl FileRun {
    /// The result for the file.
    pub fn result(&self) -> (res: FileTranspileResult)
        ensures
            res@ == file_result(*self),
    {
        let panic_message = match self.outcome {
            FileOutcome::Panicked => match &self.panic_message {
                Some(message) => Some(message.clone()),
                None => Some("(panic message not captured)".to_owned()),
            },
            _ => None,
        };
        let ok = match self.outcome {
            FileOutcome::Transpiled => true,
            FileOutcome::Skipped => true,
            _ => false,
        };
        FileTranspileResult {
            file: self.file.clone(),
            ok,
            panic_message,
            log_records: render_records(&self.records),
            captured_stderr: self.captured_stderr.clone(),
            phase_timings: self.timings.reported(self.outcome),
        }
    }
}

/// The results for the files of a batch, one for each and in their order.
pub fn transpile_batch_with_results(runs: &[FileRun]) -> (res: Vec<FileTranspileResult>)
    ensures
        res@.len() == runs@.len(),
        forall|i: int| 0 <= i < runs@.len() ==> (#[trigger] res@[i])@ == file_result(runs@[i]),
{
    let mut results: Vec<FileTranspileResult> = Vec::new();
    let mut i: usize = 0;
    while i < runs.len()
        invariant
            i <= runs@.len(),
            results@.len() == i,
            forall|k: int| 0 <= k < i ==> (#[trigger] results@[k])@ == file_result(runs@[k]),
        decreases runs@.len() - i,
    {
        results.push(runs[i].result());
        i += 1;
    }
    results
}

/// A result has a panic message exactly if a panic ended the file, and is then
/// never ok.
pub proof fn law_panics_are_reported(run: FileRun)
    ensures
        file_result(run).panic_message is Some <==> run.outcome is Panicked,
        file_result(run).panic_message is Some ==> !file_result(run).ok,
{
}

/// The total time is reported however a file ended; the time after the export
/// only together with the time for the export.
pub proof fn law_total_time_is_reported(run: FileRun)
    ensures
        file_result(run).phase_timings.total_ns == run.timings.total_ns,
        file_result(run).phase_timings.translate_ns != 0 ==> file_result(
            run,
        ).phase_timings.ast_export_ns == run.timings.ast_export_ns,
{
}

/// The result for a file has its path, all that was written to standard error,
/// and every record that was logged for it, in order and with the level as text.
/// It is ok exactly if the file was translated or skipped, and has the message of
/// the panic that ended it, or a stand-in, exactly if one did. Its times are those
/// that were measured, or 0 for what was not reached.
pub proof fn law_results_hold_what_was_observed(run: FileRun, i: int)
    ensures
        file_result(run).file == run.file@,
        file_result(run).captured_stderr == run.captured_stderr@,
        file_result(run).ok <==> run.outcome == FileOutcome::Transpiled || run.outcome
            == FileOutcome::Skipped,
        run.outcome != FileOutcome::Panicked ==> file_result(run).panic_message is None,
        run.outcome == FileOutcome::Panicked ==> file_result(run).panic_message == match run.panic_message {
            Some(message) => Some(message@),
            None => Some("(panic message not captured)"@),
        },
        file_result(run).phase_timings == (PhaseTimings {
            total_ns: run.timings.total_ns,
            ast_export_ns: match run.outcome {
                FileOutcome::Transpiled => run.timings.ast_export_ns,
                FileOutcome::ExportFailed => run.timings.ast_export_ns,
                FileOutcome::Skipped => 0,
                FileOutcome::Panicked => 0,
            },
            translate_ns: match run.outcome {
                FileOutcome::Transpiled => run.timings.translate_ns,
                FileOutcome::ExportFailed => 0,
                FileOutcome::Skipped => 0,
                FileOutcome::Panicked => 0,
            },
        }),
        file_result(run).log_records.len() == run.records@.len(),
        0 <= i < run.records@.len() ==> {
            let record = run.records@[i];
            let shown = file_result(run).log_records[i];
            &&& shown.target == record.target@
            &&& shown.message == record.message@
            &&& shown.level == match record.level {
                Level::Error => "error"@,
                Level::Warn => "warning"@,
                Level::Info => "info"@,
                Level::Debug => "debug"@,
                Level::Trace => "trace"@,
            }
        },
{
}

} // verus!
