//! Warnings and log records: which are shown, how they are shown, and how the
//! records, the panic message and the raw standard error of one file are
//! captured.

use crate::text::{chars_of, is_text, push_text, string_of};
use fern::colors::ColoredLevelConfig;
use vstd::prelude::*;
use vstd::utf8::{decode_utf8, valid_utf8};

verus! {

/// A kind of warning that can be switched on.
#[derive(Clone, Copy, PartialEq, Eq, Hash, Structural, Debug)]
pub enum Diagnostic {
    All,
    Comments,
    ClangAst,
}

/// The name of a kind of warning.
pub open spec fn diagnostic_name(d: Diagnostic) -> Seq<char> {
    match d {
        Diagnostic::All => "all"@,
        Diagnostic::Comments => "comments"@,
        Diagnostic::ClangAst => "clang-ast"@,
    }
}

/// The kind of warning with this name.
pub open spec fn diagnostic_named(name: Seq<char>) -> Option<Diagnostic> {
    if name == "all"@ {
        Some(Diagnostic::All)
    } else if name == "comments"@ {
        Some(Diagnostic::Comments)
    } else if name == "clang-ast"@ {
        Some(Diagnostic::ClangAst)
    } else {
        None
    }
}

impl Diagnostic {
    /// The name of the kind of warning.
    pub fn name(&self) -> (res: &'static str)
        ensures
            res@ == diagnostic_name(*self),
    {
        match self {
            Diagnostic::All => "all",
            Diagnostic::Comments => "comments",
            Diagnostic::ClangAst => "clang-ast",
        }
    }

    /// Finds the kind of warning with the given name.
    pub fn from_name(name: &str) -> (res: Option<Diagnostic>)
        ensures
            res == diagnostic_named(name@),
    {
        let chars = chars_of(name);
        let s = chars.as_slice();
        if is_text(s, "all") {
            Some(Diagnostic::All)
        } else if is_text(s, "comments") {
            Some(Diagnostic::Comments)
        } else if is_text(s, "clang-ast") {
            Some(Diagnostic::ClangAst)
        } else {
            None
        }
    }
}

/// The name of a kind of warning names that kind and no other.
pub proof fn law_diagnostic_names_are_unique(d: Diagnostic, name: Seq<char>)
    ensures
        diagnostic_named(name) == Some(d) <==> name == diagnostic_name(d),
{
    reveal_strlit("all");
    reveal_strlit("comments");
    reveal_strlit("clang-ast");
    assert("all"@.len() == 3);
    assert("comments"@.len() == 8);
    assert("clang-ast"@.len() == 9);
}

/// How severe a log record is.
#[derive(Clone, Copy, PartialEq, Eq, Structural, Debug)]
pub enum Level {
    Error,
    Warn,
    Info,
    Debug,
    Trace,
}

/// The most verbose level of records that are shown.
#[derive(Clone, Copy, PartialEq, Eq, Structural, Debug)]
pub enum LevelFilter {
    Off,
    Error,
    Warn,
    Info,
    Debug,
    Trace,
}

/// How verbose a level is.
pub open spec fn level_rank(level: Level) -> int {
    match level {
        Level::Error => 1,
        Level::Warn => 2,
        Level::Info => 3,
        Level::Debug => 4,
        Level::Trace => 5,
    }
}

/// How verbose a filter lets records be.
pub open spec fn filter_rank(filter: LevelFilter) -> int {
    match filter {
        LevelFilter::Off => 0,
        LevelFilter::Error => 1,
        LevelFilter::Warn => 2,
        LevelFilter::Info => 3,
        LevelFilter::Debug => 4,
        LevelFilter::Trace => 5,
    }
}

impl LevelFilter {
    fn rank(&self) -> (res: u8)
        ensures
            res == filter_rank(*self),
    {
        match self {
            LevelFilter::Off => 0,
            LevelFilter::Error => 1,
            LevelFilter::Warn => 2,
            LevelFilter::Info => 3,
            LevelFilter::Debug => 4,
            LevelFilter::Trace => 5,
        }
    }
}

/// What a record of this level is introduced with.
pub open spec fn level_label(level: Level) -> Seq<char> {
    match level {
        Level::Error => "error"@,
        Level::Warn => "warning"@,
        Level::Info => "info"@,
        Level::Debug => "debug"@,
        Level::Trace => "trace"@,
    }
}

/// The terminal's number for the colour of a level: red, yellow, or white.
pub open spec fn level_color_code(level: Level) -> Seq<char> {
    match level {
        Level::Error => "31"@,
        Level::Warn => "33"@,
        _ => "37"@,
    }
}

/// Calls `ColoredLevelConfig::get_color` of `fern` on its default
/// configuration, in which errors are red, warnings yellow and all other
/// levels white, and takes the foreground number of the colour.
#[verifier::external_body]
fn fern_level_color(level: Level) -> (res: String)
    ensures
        res@ == level_color_code(level),
{
    let level = match level {
        Level::Error => log::Level::Error,
        Level::Warn => log::Level::Warn,
        Level::Info => log::Level::Info,
        Level::Debug => log::Level::Debug,
        Level::Trace => log::Level::Trace,
    };
    ColoredLevelConfig::new().get_color(&level).to_fg_str().to_string()
}

impl Level {
    fn rank(&self) -> (res: u8)
        ensures
            res == level_rank(*self),
    {
        match self {
            Level::Error => 1,
            Level::Warn => 2,
            Level::Info => 3,
            Level::Debug => 4,
            Level::Trace => 5,
        }
    }

    /// What a record of this level is introduced with.
    pub fn label(&self) -> (res: &'static str)
        ensures
            res@ == level_label(*self),
    {
        match self {
            Level::Error => "error",
            Level::Warn => "warning",
            Level::Info => "info",
            Level::Debug => "debug",
            Level::Trace => "trace",
        }
    }

    /// The terminal's number for the colour of the level.
    pub fn color_code(&self) -> (res: String)
        ensures
            res@ == level_color_code(*self),
    {
        fern_level_color(*self)
    }
}

/// The flag that switches a warning on, if the target of the record names one.
pub open spec fn warn_flag(target: Seq<char>) -> Seq<char> {
    if diagnostic_named(target) is Some {
        " [-W"@ + target + "]"@
    } else {
        Seq::empty()
    }
}

/// A record as it is shown: the label in the colour of the level, the message,
/// and the flag that the warning belongs to.
pub open spec fn shown_record(level: Level, target: Seq<char>, message: Seq<char>) -> Seq<char> {
    "\x1B["@ + level_color_code(level) + "m"@ + level_label(level) + ":\x1B[0m "@ + message
        + warn_flag(target)
}

/// Formats a record.
pub fn format_record(level: Level, target: &str, message: &str) -> (res: String)
    ensures
        res@ == shown_record(level, target@, message@),
{
    let mut out = chars_of("\x1B[");
    let color = level.color_code();
    push_text(&mut out, color.as_str());
    push_text(&mut out, "m");
    push_text(&mut out, level.label());
    push_text(&mut out, ":\x1B[0m ");
    push_text(&mut out, message);
    let ghost head = out@;
    if Diagnostic::from_name(target).is_some() {
        push_text(&mut out, " [-W");
        push_text(&mut out, target);
        push_text(&mut out, "]");
    }
    assert(out@ == head + warn_flag(target@));
    string_of(out.as_slice())
}

/// What is logged: the warnings that are switched on, and the most verbose
/// level.
#[derive(Clone, Debug)]
pub struct LogSettings {
    pub warnings: Vec<Diagnostic>,
    pub level: LevelFilter,
}

impl LogSettings {
    /// The warnings that are switched on.
    pub open spec fn enabled(self) -> Set<Diagnostic> {
        self.warnings@.to_set()
    }
}

/// A record with this target passes: all warnings are on, or the target names
/// none, or names one that is on.
pub open spec fn passes(enabled: Set<Diagnostic>, target: Seq<char>) -> bool {
    enabled.contains(Diagnostic::All) || match diagnostic_named(target) {
        Some(d) => enabled.contains(d),
        None => true,
    }
}

/// A record is shown: its level is within the filter, and its target passes.
pub open spec fn is_shown(
    enabled: Set<Diagnostic>,
    filter: LevelFilter,
    level: Level,
    target: Seq<char>,
) -> bool {
    level_rank(level) <= filter_rank(filter) && passes(enabled, target)
}

/// What is logged: records up to the given level. The warnings among them are
/// those that were asked for and those about the Clang AST, which are on by
/// default.
pub fn init(enabled_warnings: Vec<Diagnostic>, log_level: LevelFilter) -> (res: LogSettings)
    ensures
        res.enabled() == enabled_warnings@.to_set().insert(Diagnostic::ClangAst),
        res.enabled() == initial_warnings(enabled_warnings@.to_set()),
        res.level == log_level,
{
    let mut warnings = enabled_warnings;
    let ghost before = warnings@;
    warnings.push(Diagnostic::ClangAst);
    let res = LogSettings { warnings, level: log_level };
    proof {
        let after = before.push(Diagnostic::ClangAst);
        assert forall|d: Diagnostic| after.to_set().contains(d) == before.to_set().insert(
            Diagnostic::ClangAst,
        ).contains(d) by {
            if before.contains(d) {
                let k = choose|k: int| 0 <= k < before.len() && before[k] == d;
                assert(after[k] == d);
            }
            if d == Diagnostic::ClangAst {
                assert(after[before.len() as int] == d);
            }
        }
        assert(res.enabled() =~= before.to_set().insert(Diagnostic::ClangAst));
    }
    res
}

impl LogSettings {
    fn holds(&self, d: Diagnostic) -> (res: bool)
        ensures
            res == self.enabled().contains(d),
    {
        let mut i: usize = 0;
        while i < self.warnings.len()
            invariant
                i <= self.warnings@.len(),
                forall|k: int| 0 <= k < i ==> self.warnings@[k] != d,
            decreases self.warnings@.len() - i,
        {
            if self.warnings[i] == d {
                assert(self.warnings@.contains(d));
                return true;
            }
            i += 1;
        }
        assert(!self.warnings@.contains(d));
        false
    }

    /// Whether records with this target pass.
    fn lets_pass(&self, target: &str) -> (res: bool)
        ensures
            res == passes(self.enabled(), target@),
    {
        if self.holds(Diagnostic::All) {
            return true;
        }
        match Diagnostic::from_name(target) {
            Some(d) => self.holds(d),
            None => true,
        }
    }

    /// Whether a record of this level and with this target is shown.
    pub fn shows(&self, level: Level, target: &str) -> (res: bool)
        ensures
            res == is_shown(self.enabled(), self.level, level, target@),
    {
        level.rank() <= self.level.rank() && self.lets_pass(target)
    }
}

/// After [`init`], a record is shown exactly if its level is within the log
/// level, and all warnings were asked for, or its target names no warning, or
/// one that was asked for, or the one about the Clang AST.
pub proof fn law_shown_records(
    asked: Set<Diagnostic>,
    log_level: LevelFilter,
    level: Level,
    target: Seq<char>,
)
    ensures
        is_shown(asked.insert(Diagnostic::ClangAst), log_level, level, target) <==> level_rank(
            level,
        ) <= filter_rank(log_level) && (asked.contains(Diagnostic::All) || diagnostic_named(target)
            is None || asked.contains(diagnostic_named(target).unwrap()) || target
            == "clang-ast"@),
{
    law_diagnostic_names_are_unique(Diagnostic::ClangAst, target);
}

/// One log record captured for the currently-running batch entry: level,
/// target (e.g. a [`Diagnostic`] name, or the module path for plain log
/// calls), and the formatted message text. Kept as structured
/// `(level, target, message)` instead of a pre-formatted line so callers can
/// pattern-match on `target`/`message` directly.
#[derive(Clone, Debug)]
pub struct CapturedRecord {
    pub level: Level,
    pub target: String,
    pub message: String,
}

/// What a [`CapturedRecord`] says.
#[verifier::ext_equal]
pub struct RecordView {
    pub level: Level,
    pub target: Seq<char>,
    pub message: Seq<char>,
}

impl View for CapturedRecord {
    type V = RecordView;

    open spec fn view(&self) -> RecordView {
        RecordView { level: self.level, target: self.target@, message: self.message@ }
    }
}

/// The views of a list of records.
pub open spec fn record_views(records: Seq<CapturedRecord>) -> Seq<RecordView> {
    Seq::new(records.len(), |i: int| records[i]@)
}

/// The records captured for one file. Without a capture under way there is
/// none, which is what a plain run always sees: capture is strictly additive.
#[derive(Debug)]
pub struct Capture {
    pub records: Option<Vec<CapturedRecord>>,
}

impl View for Capture {
    type V = Option<Seq<RecordView>>;

    open spec fn view(&self) -> Option<Seq<RecordView>> {
        match self.records {
            Some(records) => Some(record_views(records@)),
            None => None,
        }
    }
}

/// The capture after a record was logged: it is added if a capture is under
/// way and the record is enabled.
pub open spec fn capture_after(
    capture: Option<Seq<RecordView>>,
    enabled: bool,
    record: RecordView,
) -> Option<Seq<RecordView>> {
    match capture {
        Some(records) => Some(
            if enabled {
                records.push(record)
            } else {
                records
            },
        ),
        None => None,
    }
}

impl Capture {
    /// No capture under way.
    pub fn idle() -> (res: Self)
        ensures
            res@ is None,
    {
        Capture { records: None }
    }

    /// Adds a record if a capture is under way and the record is enabled.
    ///
    /// The log facade hands out every record below a coarse global cutoff, so
    /// one that the logger would not show is left out here too.
    pub fn log(&mut self, enabled: bool, record: CapturedRecord)
        ensures
            final(self)@ == capture_after(old(self)@, enabled, record@),
    {
        if enabled {
            if let Some(mut records) = self.records.take() {
                let ghost before = records@;
                records.push(record);
                assert(record_views(records@) =~= record_views(before).push(record@));
                self.records = Some(records);
            }
        }
    }
}

/// Start capturing log records, in addition to showing them. Call once per file
/// immediately before invoking the per-file transpile step; pair with
/// [`take_captured`] immediately after to read back what that one call
/// logged.
pub fn start_capture(capture: &mut Capture)
    ensures
        final(capture)@ == Some(Seq::<RecordView>::empty()),
{
    let records: Vec<CapturedRecord> = Vec::new();
    assert(record_views(records@) =~= Seq::<RecordView>::empty());
    capture.records = Some(records);
}

/// Stop capturing and return everything captured since the matching
/// [`start_capture`] call.
pub fn take_captured(capture: &mut Capture) -> (res: Vec<CapturedRecord>)
    ensures
        final(capture)@ is None,
        record_views(res@) == match old(capture)@ {
            Some(records) => records,
            None => Seq::empty(),
        },
{
    match capture.records.take() {
        Some(records) => records,
        None => {
            let none: Vec<CapturedRecord> = Vec::new();
            assert(record_views(none@) =~= Seq::<RecordView>::empty());
            none
        },
    }
}

/// The capture after a sequence of records, each enabled or not.
pub open spec fn capture_after_all(
    capture: Option<Seq<RecordView>>,
    log: Seq<(bool, RecordView)>,
) -> Option<Seq<RecordView>>
    decreases log.len(),
{
    if log.len() == 0 {
        capture
    } else {
        capture_after(capture_after_all(capture, log.drop_last()), log.last().0, log.last().1)
    }
}

/// The enabled records of a sequence.
pub open spec fn enabled_records(log: Seq<(bool, RecordView)>) -> Seq<RecordView>
    decreases log.len(),
{
    if log.len() == 0 {
        Seq::empty()
    } else if log.last().0 {
        enabled_records(log.drop_last()).push(log.last().1)
    } else {
        enabled_records(log.drop_last())
    }
}

/// A capture holds exactly the enabled records that were logged since it was
/// started, in order; without one nothing is kept.
pub proof fn law_capture_keeps_enabled_records(log: Seq<(bool, RecordView)>)
    ensures
        capture_after_all(Some(Seq::empty()), log) == Some(enabled_records(log)),
        capture_after_all(None, log) is None,
    decreases log.len(),
{
    if log.len() > 0 {
        law_capture_keeps_enabled_records(log.drop_last());
    }
}

/// The message of the last panic, as the panic hook saw it.
#[derive(Debug)]
pub struct PanicMessage {
    pub message: Option<String>,
}

impl View for PanicMessage {
    type V = Option<Seq<char>>;

    open spec fn view(&self) -> Option<Seq<char>> {
        match self.message {
            Some(message) => Some(message@),
            None => None,
        }
    }
}

impl PanicMessage {
    /// No panic so far.
    pub fn none() -> (res: Self)
        ensures
            res@ is None,
    {
        PanicMessage { message: None }
    }

    /// Keeps the message of a panic, in the place of an earlier one.
    pub fn record(&mut self, message: String)
        ensures
            final(self)@ == Some(message@),
    {
        self.message = Some(message);
    }
}

/// Reads the message of the last panic and clears it.
pub fn take_last_panic_message(last: &mut PanicMessage) -> (res: Option<String>)
    ensures
        final(last)@ is None,
        match res {
            Some(message) => old(last)@ == Some(message@),
            None => old(last)@ is None,
        },
{
    last.message.take()
}

/// The text that `String::from_utf8_lossy` makes of bytes that are not UTF-8.
pub uninterp spec fn replaced_text(bytes: Seq<u8>) -> Seq<char>;

/// The text of some bytes, with replacement characters for what is not UTF-8.
pub open spec fn lossy_text(bytes: Seq<u8>) -> Seq<char> {
    if valid_utf8(bytes) {
        decode_utf8(bytes)
    } else {
        replaced_text(bytes)
    }
}

/// Calls `String::from_utf8_lossy`. Valid UTF-8 is decoded; what becomes of
/// other bytes, where replacement characters stand for the invalid sequences,
/// is only named.
#[verifier::external_body]
fn decode_lossy(bytes: &[u8]) -> (res: String)
    ensures
        valid_utf8(bytes@) ==> res@ == decode_utf8(bytes@),
        !valid_utf8(bytes@) ==> res@ == replaced_text(bytes@),
{
    String::from_utf8_lossy(bytes).into_owned()
}

/// Pairs the result of a computation with the text of everything that was
/// written to standard error while it ran. Invalid UTF-8, if any slips in from
/// a stray path in a diagnostic, is replaced rather than causing a failure.
pub fn capture_stderr<R>(result: R, written: &[u8]) -> (res: (R, String))
    ensures
        res.0 == result,
        res.1@ == lossy_text(written@),
{
    (result, decode_lossy(written))
}

/// A level is within a filter exactly if it is no more verbose: nothing is within
/// `Off`, and everything within `Trace`.
pub proof fn law_levels_within_filters(
    enabled: Set<Diagnostic>,
    filter: LevelFilter,
    level: Level,
    target: Seq<char>,
)
    ensures
        is_shown(enabled, filter, level, target) <==> passes(enabled, target) && match level {
            Level::Error => !(filter is Off),
            Level::Warn => !(filter is Off) && !(filter is Error),
            Level::Info => filter is Info || filter is Debug || filter is Trace,
            Level::Debug => filter is Debug || filter is Trace,
            Level::Trace => filter is Trace,
        },
{
}

/// Records pass by their target only: with all warnings on every record does, and
/// else a record of a warning exactly if that warning is on, and any other record.
pub proof fn law_targets_pass(enabled: Set<Diagnostic>, d: Diagnostic, target: Seq<char>)
    ensures
        enabled.contains(Diagnostic::All) ==> passes(enabled, target),
        !enabled.contains(Diagnostic::All) ==> (passes(enabled, diagnostic_name(d))
            <==> enabled.contains(d)),
        (forall|x: Diagnostic| target != #[trigger] diagnostic_name(x)) ==> passes(enabled, target),
{
    law_diagnostic_names_are_unique(d, diagnostic_name(d));
    if diagnostic_named(target) is Some {
        let x = diagnostic_named(target).unwrap();
        law_diagnostic_names_are_unique(x, target);
        assert(target == diagnostic_name(x));
    }
}

/// A record is shown as its label in the colour of its level, its message as it
/// is, and behind that the flag of the warning that its target names, if it names
/// one.
pub proof fn law_records_are_shown_with_their_message(
    level: Level,
    d: Diagnostic,
    target: Seq<char>,
    message: Seq<char>,
)
    ensures
        ({
            let label = match level {
                Level::Error => "\x1B["@ + "31"@ + "m"@ + "error"@ + ":\x1B[0m "@,
                Level::Warn => "\x1B["@ + "33"@ + "m"@ + "warning"@ + ":\x1B[0m "@,
                Level::Info => "\x1B["@ + "37"@ + "m"@ + "info"@ + ":\x1B[0m "@,
                Level::Debug => "\x1B["@ + "37"@ + "m"@ + "debug"@ + ":\x1B[0m "@,
                Level::Trace => "\x1B["@ + "37"@ + "m"@ + "trace"@ + ":\x1B[0m "@,
            };
            &&& shown_record(level, diagnostic_name(d), message) == label + message + (" [-W"@
                + diagnostic_name(d) + "]"@)
            &&& (forall|x: Diagnostic| target != #[trigger] diagnostic_name(x)) ==> shown_record(
                level,
                target,
                message,
            ) == label + message
        }),
{
    law_diagnostic_names_are_unique(d, diagnostic_name(d));
    if diagnostic_named(target) is Some {
        let x = diagnostic_named(target).unwrap();
        law_diagnostic_names_are_unique(x, target);
        assert(target == diagnostic_name(x));
    } else {
        let label = shown_record(level, target, message);
        assert(label + Seq::<char>::empty() =~= label);
    }
}

/// Bytes that are UTF-8 are decoded, and all others come out with what stands in
/// for the invalid ones.
pub proof fn law_valid_bytes_are_decoded(bytes: Seq<u8>)
    ensures
        valid_utf8(bytes) ==> lossy_text(bytes) == decode_utf8(bytes),
        !valid_utf8(bytes) ==> lossy_text(bytes) == replaced_text(bytes),
{
}

/// The names of the kinds of warnings.
pub proof fn law_warnings_have_their_names(d: Diagnostic)
    ensures
        diagnostic_named("all"@) == Some(Diagnostic::All),
        diagnostic_named("comments"@) == Some(Diagnostic::Comments),
        diagnostic_named("clang-ast"@) == Some(Diagnostic::ClangAst),
        diagnostic_named(diagnostic_name(d)) == Some(d),
{
    law_diagnostic_names_are_unique(Diagnostic::All, "all"@);
    law_diagnostic_names_are_unique(Diagnostic::Comments, "comments"@);
    law_diagnostic_names_are_unique(Diagnostic::ClangAst, "clang-ast"@);
    law_diagnostic_names_are_unique(d, diagnostic_name(d));
}

/// A capture that is under way keeps the records that it holds, and gets each new
/// one behind them exactly if it is enabled.
pub proof fn law_captures_only_grow(
    records: Seq<RecordView>,
    log: Seq<(bool, RecordView)>,
    enabled: bool,
    record: RecordView,
)
    ensures
        capture_after(Some(records), true, record) == Some(records.push(record)),
        capture_after(Some(records), false, record) == Some(records),
        capture_after(None, enabled, record) is None,
        enabled_records(log) == log.filter(|e: (bool, RecordView)| e.0).map_values(
            |e: (bool, RecordView)| e.1,
        ),
    decreases log.len(),
{
    reveal(Seq::filter);
    if log.len() > 0 {
        law_captures_only_grow(records, log.drop_last(), enabled, record);
    }
    assert(enabled_records(log) =~= log.filter(|e: (bool, RecordView)| e.0).map_values(
        |e: (bool, RecordView)| e.1,
    ));
}

/// The warnings that are on when these were asked for.
pub open spec fn initial_warnings(asked: Set<Diagnostic>) -> Set<Diagnostic> {
    asked.insert(Diagnostic::ClangAst)
}

/// The warnings that are on are those that were asked for, and the one about the
/// Clang AST in any case.
pub proof fn law_initial_warnings(asked: Set<Diagnostic>, d: Diagnostic)
    ensures
        initial_warnings(asked).contains(d) <==> asked.contains(d) || d == Diagnostic::ClangAst,
{
}

} // verus!
