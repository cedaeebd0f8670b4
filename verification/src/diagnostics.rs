//! The log of build events, and the lines that report them.

use crate::text::push_char;
use vstd::prelude::*;
use vstd::string::*;

verus! {

/// The character of the decimal digit `d`.
pub open spec fn digit_char(d: nat) -> char {
    if d == 0 {
        '0'
    } else if d == 1 {
        '1'
    } else if d == 2 {
        '2'
    } else if d == 3 {
        '3'
    } else if d == 4 {
        '4'
    } else if d == 5 {
        '5'
    } else if d == 6 {
        '6'
    } else if d == 7 {
        '7'
    } else if d == 8 {
        '8'
    } else {
        '9'
    }
}

/// The decimal digits of `n`, the most significant first.
pub open spec fn decimal_digits(n: nat) -> Seq<char>
    decreases n,
{
    if n < 10 {
        seq![digit_char(n)]
    } else {
        decimal_digits(n / 10).push(digit_char(n % 10))
    }
}

fn digit(d: u128) -> (c: char)
    requires
        d < 10,
    ensures
        c == digit_char(d as nat),
{
    if d == 0 {
        '0'
    } else if d == 1 {
        '1'
    } else if d == 2 {
        '2'
    } else if d == 3 {
        '3'
    } else if d == 4 {
        '4'
    } else if d == 5 {
        '5'
    } else if d == 6 {
        '6'
    } else if d == 7 {
        '7'
    } else if d == 8 {
        '8'
    } else {
        '9'
    }
}

fn push_decimal(n: u128, out: &mut String)
    ensures
        final(out)@ == old(out)@ + decimal_digits(n as nat),
    decreases n,
{
    if n >= 10 {
        push_decimal(n / 10, out);
    }
    push_char(out, digit(n % 10));
    assert(out@ =~= old(out)@ + decimal_digits(n as nat));
}

/// `n` written in decimal.
pub fn decimal(n: u128) -> (s: String)
    ensures
        s@ == decimal_digits(n as nat),
{
    let mut s = String::new();
    push_decimal(n, &mut s);
    assert(Seq::<char>::empty() + decimal_digits(n as nat) =~= decimal_digits(n as nat));
    s
}

/// The stage of a compilation at which something went wrong.
#[derive(Clone, Copy, Debug, PartialEq, Eq, Structural)]
pub enum ErrorKind {
    /// A source file is missing or cannot be read.
    Read,
    /// The parser rejected a source file.
    Parse,
    /// A request could not be resolved to a file.
    Resolve,
    /// A module holds something that cannot be lowered.
    Lower,
    /// Code could not be generated, or is no UTF-8.
    Emit,
    /// The output file could not be written.
    Write,
}

/// The name of `kind` in a report.
pub open spec fn kind_name(kind: ErrorKind) -> Seq<char> {
    match kind {
        ErrorKind::Read => "Read"@,
        ErrorKind::Parse => "Parse"@,
        ErrorKind::Resolve => "Resolve"@,
        ErrorKind::Lower => "Lower"@,
        ErrorKind::Emit => "Emit"@,
        ErrorKind::Write => "Write"@,
    }
}

/// A module was built.
#[derive(Clone, Debug, PartialEq, Eq)]
pub struct ModuleBuildSuccess {
    pub module_id: String,
    /// How long the build took, in milliseconds.
    pub duration: u128,
}

pub struct ModuleBuildSuccessView {
    pub module_id: Seq<char>,
    pub duration: nat,
}

impl View for ModuleBuildSuccess {
    type V = ModuleBuildSuccessView;

    open spec fn view(&self) -> ModuleBuildSuccessView {
        ModuleBuildSuccessView { module_id: self.module_id@, duration: self.duration as nat }
    }
}

/// A compilation failed at `path`.
#[derive(Clone, Debug, PartialEq, Eq)]
pub struct BuildFailure {
    pub kind: ErrorKind,
    /// The id or the path of the module at fault.
    pub path: String,
    pub detail: String,
}

pub struct BuildFailureView {
    pub kind: ErrorKind,
    pub path: Seq<char>,
    pub detail: Seq<char>,
}

impl View for BuildFailure {
    type V = BuildFailureView;

    open spec fn view(&self) -> BuildFailureView {
        BuildFailureView { kind: self.kind, path: self.path@, detail: self.detail@ }
    }
}

/// One build event.
#[derive(Clone, Debug, PartialEq, Eq)]
pub enum Diagnostic {
    ModuleBuildSuccess(ModuleBuildSuccess),
    BuildFailure(BuildFailure),
}

pub enum DiagnosticView {
    ModuleBuildSuccess(ModuleBuildSuccessView),
    BuildFailure(BuildFailureView),
}

impl View for Diagnostic {
    type V = DiagnosticView;

    open spec fn view(&self) -> DiagnosticView {
        match self {
            Diagnostic::ModuleBuildSuccess(success) => DiagnosticView::ModuleBuildSuccess(
                success@,
            ),
            Diagnostic::BuildFailure(failure) => DiagnosticView::BuildFailure(failure@),
        }
    }
}

/// The views of a list of events, in order.
pub open spec fn diagnostic_views(diagnostics: Seq<Diagnostic>) -> Seq<DiagnosticView> {
    diagnostics.map_values(|d: Diagnostic| d@)
}

/// The line `<id> built` that reports progress.
pub open spec fn progress_line(module_id: Seq<char>) -> Seq<char> {
    module_id + " built"@
}

/// The line `Build complete in <ms>ms`.
pub open spec fn build_complete_line(millis: nat) -> Seq<char> {
    "Build complete in "@ + decimal_digits(millis) + "ms"@
}

/// The line `<kind>: <path>: <detail>` that reports a failure.
pub open spec fn failure_line(failure: BuildFailureView) -> Seq<char> {
    kind_name(failure.kind) + ": "@ + failure.path + ": "@ + failure.detail
}

/// The line that reports `diagnostic` at the end of a build:
/// `Module <id> built in <ms>ms` for a module, the failure line for a failure.
pub open spec fn diagnostic_line(diagnostic: DiagnosticView) -> Seq<char> {
    match diagnostic {
        DiagnosticView::ModuleBuildSuccess(success) => "Module "@ + success.module_id
            + " built in "@ + decimal_digits(success.duration) + "ms"@,
        DiagnosticView::BuildFailure(failure) => failure_line(failure),
    }
}

impl ErrorKind {
    /// The name of this kind in a report.
    pub fn name(&self) -> (name: String)
        ensures
            name@ == kind_name(*self),
    {
        match self {
            ErrorKind::Read => String::from_str("Read"),
            ErrorKind::Parse => String::from_str("Parse"),
            ErrorKind::Resolve => String::from_str("Resolve"),
            ErrorKind::Lower => String::from_str("Lower"),
            ErrorKind::Emit => String::from_str("Emit"),
            ErrorKind::Write => String::from_str("Write"),
        }
    }
}

impl ModuleBuildSuccess {
    /// The line that reports that this module was built.
    pub fn progress_line(&self) -> (line: String)
        ensures
            line@ == progress_line(self@.module_id),
    {
        let mut line = self.module_id.clone();
        line.append(" built");
        line
    }
}

/// What is reported of a source file that cannot be read.
pub const READ_FAILED: &'static str = "Failed to read file";

/// What is reported of a source file that the parser rejects.
pub const PARSE_FAILED: &'static str = "Error parsing module";

/// What is reported of a module for which no code can be generated.
pub const EMIT_FAILED: &'static str = "Failed to emit buffer";

/// What is reported of generated code that is no UTF-8.
pub const UTF8_FAILED: &'static str = "Failed to convert UTF-8 buffer to string buffer";

/// What is reported of a chunk that cannot be written.
pub const WRITE_FAILED: &'static str = "Failed to write chunk";

/// What is reported of a request that cannot be resolved, before the request.
pub const RESOLVE_FAILED: &'static str = "Failed to resolve ";

impl BuildFailure {
    /// The failure of kind `kind` at `path`, with `detail` as its reason.
    pub fn new(kind: ErrorKind, path: &str, detail: &str) -> (failure: Self)
        ensures
            failure@ == (BuildFailureView { kind, path: path@, detail: detail@ }),
    {
        BuildFailure { kind, path: path.to_owned(), detail: detail.to_owned() }
    }

    /// The line that reports this failure.
    pub fn line(&self) -> (line: String)
        ensures
            line@ == failure_line(self@),
    {
        let mut line = self.kind.name();
        line.append(": ");
        line.append(self.path.as_str());
        line.append(": ");
        line.append(self.detail.as_str());
        line
    }
}

impl Diagnostic {
    /// The line that reports this event at the end of a build.
    pub fn line(&self) -> (line: String)
        ensures
            line@ == diagnostic_line(self@),
    {
        match self {
            Diagnostic::ModuleBuildSuccess(success) => {
                let mut line = String::from_str("Module ");
                line.append(success.module_id.as_str());
                line.append(" built in ");
                line.append(decimal(success.duration).as_str());
                line.append("ms");
                line
            },
            Diagnostic::BuildFailure(failure) => failure.line(),
        }
    }
}

/// The line that reports the end of a build that took `millis` milliseconds.
pub fn build_complete(millis: u128) -> (line: String)
    ensures
        line@ == build_complete_line(millis as nat),
{
    let mut line = String::from_str("Build complete in ");
    line.append(decimal(millis).as_str());
    line.append("ms");
    line
}

/// The log of build events, in the order in which they were added.
pub struct Diagnostics {
    diagnostics: Vec<Diagnostic>,
}

impl View for Diagnostics {
    type V = Seq<DiagnosticView>;

    closed spec fn view(&self) -> Seq<DiagnosticView> {
        diagnostic_views(self.diagnostics@)
    }
}

impl Diagnostics {
    /// An empty log.
    pub fn new() -> (log: Self)
        ensures
            log@ == Seq::<DiagnosticView>::empty(),
    {
        let log = Self { diagnostics: Vec::new() };
        assert(log@ =~= Seq::<DiagnosticView>::empty());
        log
    }

    /// Appends `diagnostic` to the log.
    pub fn add_diagnostic(&mut self, diagnostic: Diagnostic)
        ensures
            final(self)@ == old(self)@.push(diagnostic@),
    {
        self.diagnostics.push(diagnostic);
        assert(self@ =~= old(self)@.push(diagnostic@));
    }

    /// The events of the log, in the order in which they were added.
    pub fn diagnostics(&self) -> (diagnostics: &Vec<Diagnostic>)
        ensures
            diagnostic_views(diagnostics@) == self@,
    {
        &self.diagnostics
    }

    /// The lines that report the events of the log, one for each event, in
    /// order.
    pub fn lines(&self) -> (lines: Vec<String>)
        ensures
            lines@.len() == self@.len(),
            forall|i: int| 0 <= i < lines@.len() ==> (#[trigger] lines@[i])@ == diagnostic_line(
                self@[i],
            ),
    {
        let mut lines: Vec<String> = Vec::new();
        let mut i: usize = 0;
        while i < self.diagnostics.len()
            invariant
                i <= self.diagnostics.len(),
                lines@.len() == i,
                forall|k: int| 0 <= k < i ==> (#[trigger] lines@[k])@ == diagnostic_line(self@[k]),
            decreases self.diagnostics.len() - i,
        {
            lines.push(self.diagnostics[i].line());
            i += 1;
        }
        lines
    }
}

} // verus!
