//! After the files are written: each Rust source is formatted with rustfmt,
//! then the crate is checked with `cargo check`. The processes run outside
//! the library; these functions decide what each outcome means. Formatting is
//! cosmetic and only warns; a failed or impossible check is a hard error.

use vstd::prelude::*;

use crate::text::{trim, trim_str};

verus! {

/// How running an external tool went.
#[derive(Debug)]
pub enum ToolRun {
    /// It ran and exited successfully.
    Succeeded,
    /// It ran and exited unsuccessfully; what it wrote to stderr.
    Failed { stderr: String },
    /// The program is not installed.
    NotFound,
    /// It could not be started for another reason, described by `message`.
    SpawnFailed { message: String },
}

pub enum ToolRunV {
    Succeeded,
    Failed { stderr: Seq<char> },
    NotFound,
    SpawnFailed { message: Seq<char> },
}

impl View for ToolRun {
    type V = ToolRunV;

    open spec fn view(&self) -> ToolRunV {
        match self {
            ToolRun::Succeeded => ToolRunV::Succeeded,
            ToolRun::Failed { stderr } => ToolRunV::Failed { stderr: stderr@ },
            ToolRun::NotFound => ToolRunV::NotFound,
            ToolRun::SpawnFailed { message } => ToolRunV::SpawnFailed { message: message@ },
        }
    }
}

/// What the formatting pass does after running rustfmt on one file.
#[derive(Debug)]
pub enum FmtStep {
    /// Go on with the next file.
    Next,
    /// Print the warning and go on with the next file.
    Warn { message: String },
    /// Print the warning and format no further file; the pass succeeds.
    StopAll { message: String },
    /// The pass fails with this error.
    Fail { message: String },
}

pub enum FmtStepV {
    Next,
    Warn { message: Seq<char> },
    StopAll { message: Seq<char> },
    Fail { message: Seq<char> },
}

impl View for FmtStep {
    type V = FmtStepV;

    open spec fn view(&self) -> FmtStepV {
        match self {
            FmtStep::Next => FmtStepV::Next,
            FmtStep::Warn { message } => FmtStepV::Warn { message: message@ },
            FmtStep::StopAll { message } => FmtStepV::StopAll { message: message@ },
            FmtStep::Fail { message } => FmtStepV::Fail { message: message@ },
        }
    }
}

/// The step after running rustfmt on `path`: a failure only warns, with the
/// trimmed stderr; a missing rustfmt warns once and ends the pass.
pub open spec fn spec_rustfmt_step(path: Seq<char>, run: ToolRunV) -> FmtStepV {
    match run {
        ToolRunV::Succeeded => FmtStepV::Next,
        ToolRunV::Failed { stderr } => FmtStepV::Warn {
            message: "warning: rustfmt failed on "@ + path + ": "@ + trim(stderr),
        },
        ToolRunV::NotFound => FmtStepV::StopAll {
            message: "warning: rustfmt not found; skipping formatting"@,
        },
        ToolRunV::SpawnFailed { message } => FmtStepV::Fail {
            message: "failed to run rustfmt: "@ + message,
        },
    }
}

/// Decide the step after running rustfmt on `path`.
pub fn rustfmt_step(path: &str, run: &ToolRun) -> (s: FmtStep)
    ensures
        s@ == spec_rustfmt_step(path@, run@),
{
    match run {
        ToolRun::Succeeded => FmtStep::Next,
        ToolRun::Failed { stderr } => {
            let mut message = String::from_str("warning: rustfmt failed on ");
            message.append(path);
            message.append(": ");
            let t = trim_str(stderr.as_str());
            message.append(t.as_str());
            FmtStep::Warn { message }
        },
        ToolRun::NotFound => FmtStep::StopAll {
            message: String::from_str("warning: rustfmt not found; skipping formatting"),
        },
        ToolRun::SpawnFailed { message: m } => {
            let mut message = String::from_str("failed to run rustfmt: ");
            message.append(m.as_str());
            FmtStep::Fail { message }
        },
    }
}

/// The error when `cargo` is not installed.
pub open spec fn cargo_not_found_message() -> Seq<char> {
    "cargo not found; cannot verify the generated crate (pass --no-verify to skip)"@
}

/// The outcome of `cargo check` on the generated crate: only a successful run
/// passes; a failed one is an error carrying the trimmed compiler output.
pub open spec fn spec_cargo_check_outcome(run: ToolRunV) -> Result<(), Seq<char>> {
    match run {
        ToolRunV::Succeeded => Ok(()),
        ToolRunV::Failed { stderr } => Err(
            "generated crate failed `cargo check`:\n"@ + trim(stderr),
        ),
        ToolRunV::NotFound => Err(cargo_not_found_message()),
        ToolRunV::SpawnFailed { message } => Err("failed to run cargo check: "@ + message),
    }
}

/// Decide what a run of `cargo check` on the generated crate means.
pub fn cargo_check_outcome(run: &ToolRun) -> (r: Result<(), String>)
    ensures
        (r is Ok) == (run@ is Succeeded),
        match r {
            Ok(_) => spec_cargo_check_outcome(run@) == Ok::<(), Seq<char>>(()),
            Err(m) => spec_cargo_check_outcome(run@) == Err::<(), Seq<char>>(m@),
        },
{
    match run {
        ToolRun::Succeeded => Ok(()),
        ToolRun::Failed { stderr } => {
            let mut message = String::from_str("generated crate failed `cargo check`:\n");
            let t = trim_str(stderr.as_str());
            message.append(t.as_str());
            Err(message)
        },
        ToolRun::NotFound => Err(
            String::from_str(
                "cargo not found; cannot verify the generated crate (pass --no-verify to skip)",
            ),
        ),
        ToolRun::SpawnFailed { message: m } => {
            let mut message = String::from_str("failed to run cargo check: ");
            message.append(m.as_str());
            Err(message)
        },
    }
}

/// Formatting is cosmetic: it fails the run only when rustfmt could not be
/// started, and a missing rustfmt ends the pass without an error.
pub proof fn law_formatting_only_warns(path: Seq<char>, run: ToolRunV)
    ensures
        (spec_rustfmt_step(path, run) is Fail) == (run is SpawnFailed),
        (spec_rustfmt_step(path, run) is StopAll) == (run is NotFound),
{
}

/// The check passes exactly when `cargo check` ran and succeeded; a missing
/// `cargo` is an error that points at `--no-verify`.
pub proof fn law_check_fails_loudly(run: ToolRunV)
    ensures
        (spec_cargo_check_outcome(run) is Ok) == (run is Succeeded),
        run is NotFound ==> spec_cargo_check_outcome(run) == Err::<(), Seq<char>>(
            cargo_not_found_message(),
        ),
{
}

} // verus!
