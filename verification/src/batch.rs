//! Decisions of a batch run: what each `chdman` event leads to, what each processed
//! file is logged as, whether a source may be deleted, and how a batch ends.

use vstd::prelude::*;
use crate::text::{chars_of, str_eq};

verus! {

broadcast use vstd::string::group_string_axioms;

/// The kind of a progress event shown to the user.
#[derive(Clone, Copy, Debug, PartialEq, Eq, Structural)]
pub enum EventKind {
    Start,
    Command,
    Output,
    Progress,
    Success,
    Error,
    Canceled,
    Complete,
}

/// The name under which an event kind is reported.
pub open spec fn spec_kind_name(kind: EventKind) -> Seq<char> {
    match kind {
        EventKind::Start => "start"@,
        EventKind::Command => "command"@,
        EventKind::Output => "output"@,
        EventKind::Progress => "progress"@,
        EventKind::Success => "success"@,
        EventKind::Error => "error"@,
        EventKind::Canceled => "canceled"@,
        EventKind::Complete => "complete"@,
    }
}

impl EventKind {
    /// The name under which this kind is reported.
    pub fn name(&self) -> (s: &'static str)
        ensures
            s@ == spec_kind_name(*self),
    {
        match self {
            EventKind::Start => "start",
            EventKind::Command => "command",
            EventKind::Output => "output",
            EventKind::Progress => "progress",
            EventKind::Success => "success",
            EventKind::Error => "error",
            EventKind::Canceled => "canceled",
            EventKind::Complete => "complete",
        }
    }
}

/// What happened while a `chdman` run was being watched.
#[derive(Clone, Copy, Debug, PartialEq, Eq, Structural)]
pub enum StreamEvent {
    /// The user asked to cancel.
    CancelRequested,
    /// A line of output arrived; `has_percent` tells whether it reports a percentage.
    Line { has_percent: bool },
    /// No output for a while; `exited` is the exit success once the process ended.
    Idle { exited: Option<bool> },
    /// Both output streams closed; `waited` is the exit success of the process, or
    /// `None` when it had already been taken away by a cancellation.
    Closed { waited: Option<bool> },
}

/// What the watcher of a `chdman` run does next.
#[derive(Clone, Copy, Debug, PartialEq, Eq, Structural)]
pub enum StreamAction {
    /// Kill the process; the run ends as canceled.
    Interrupt,
    /// Show the line as an event of this kind and keep watching.
    Show(EventKind),
    /// Keep watching.
    Wait,
    /// The run is over: `Some(success)`, or `None` when it was canceled.
    Finish(Option<bool>),
}

/// The watcher's reaction to an event: a cancellation interrupts the process; a
/// line is shown as progress when it reports a percentage and as output otherwise;
/// an ended process finishes the run with its exit success.
pub open spec fn spec_stream_action(event: StreamEvent) -> StreamAction {
    match event {
        StreamEvent::CancelRequested => StreamAction::Interrupt,
        StreamEvent::Line { has_percent } => if has_percent {
            StreamAction::Show(EventKind::Progress)
        } else {
            StreamAction::Show(EventKind::Output)
        },
        StreamEvent::Idle { exited } => match exited {
            Some(ok) => StreamAction::Finish(Some(ok)),
            None => StreamAction::Wait,
        },
        StreamEvent::Closed { waited } => StreamAction::Finish(waited),
    }
}

/// The watcher's reaction to `event`.
pub fn stream_action(event: StreamEvent) -> (a: StreamAction)
    ensures
        a == spec_stream_action(event),
{
    match event {
        StreamEvent::CancelRequested => StreamAction::Interrupt,
        StreamEvent::Line { has_percent } => {
            if has_percent {
                StreamAction::Show(EventKind::Progress)
            } else {
                StreamAction::Show(EventKind::Output)
            }
        },
        StreamEvent::Idle { exited } => match exited {
            Some(ok) => StreamAction::Finish(Some(ok)),
            None => StreamAction::Wait,
        },
        StreamEvent::Closed { waited } => StreamAction::Finish(waited),
    }
}

/// A watched run ends with the exit status of the process and nothing else: it
/// finishes as succeeded or failed exactly when the process was seen to exit
/// (while idle, or once both streams closed) with that status; it finishes as
/// canceled only when the streams closed after the process was taken away by a
/// cancellation; it is interrupted exactly on a cancel request; and each line is
/// shown, as progress exactly when it reports a percentage.
pub proof fn law_runs_finish_with_their_exit_status(event: StreamEvent, success: bool)
    ensures
        (spec_stream_action(event) == StreamAction::Finish(Some(success))) <==> (event == (StreamEvent::Idle {
            exited: Some(success),
        }) || event == (StreamEvent::Closed { waited: Some(success) })),
        (spec_stream_action(event) == StreamAction::Finish(None)) <==> event == (StreamEvent::Closed {
            waited: None,
        }),
        (spec_stream_action(event) == StreamAction::Interrupt) <==> event == StreamEvent::CancelRequested,
        (spec_stream_action(event) == StreamAction::Wait) <==> event == (StreamEvent::Idle { exited: None }),
        (spec_stream_action(event) == StreamAction::Show(EventKind::Progress)) <==> event == (StreamEvent::Line {
            has_percent: true,
        }),
        (spec_stream_action(event) == StreamAction::Show(EventKind::Output)) <==> event == (StreamEvent::Line {
            has_percent: false,
        }),
{
}

/// Outcome of one `chdman` file operation, telling a clean failure from a
/// cancellation so that logs stay accurate.
#[derive(Clone, Copy, Debug, PartialEq, Eq, Structural)]
pub enum CommandStatus {
    Succeeded,
    Failed,
    Canceled,
}

/// The status of a finished run: `Some(true)` succeeded, `Some(false)` failed,
/// `None` was canceled.
pub open spec fn spec_run_status(finished: Option<bool>) -> CommandStatus {
    match finished {
        Some(true) => CommandStatus::Succeeded,
        Some(false) => CommandStatus::Failed,
        None => CommandStatus::Canceled,
    }
}

/// The status of a run that finished as `finished`.
pub fn run_status(finished: Option<bool>) -> (s: CommandStatus)
    ensures
        s == spec_run_status(finished),
{
    match finished {
        Some(true) => CommandStatus::Succeeded,
        Some(false) => CommandStatus::Failed,
        None => CommandStatus::Canceled,
    }
}

/// A run succeeded exactly when the process exited successfully, failed exactly
/// when it exited unsuccessfully, and was canceled exactly when it did not finish.
pub proof fn law_run_status_follows_exit(finished: Option<bool>)
    ensures
        (spec_run_status(finished) == CommandStatus::Succeeded) <==> finished == Some(true),
        (spec_run_status(finished) == CommandStatus::Failed) <==> finished == Some(false),
        (spec_run_status(finished) == CommandStatus::Canceled) <==> finished is None,
{
}

/// Whether the partial output of a run with `status` is removed: after every failed
/// or canceled run, never after a successful one (whose staged output is deployed).
pub fn removes_partial_output(status: CommandStatus) -> (r: bool)
    ensures
        r == (status != CommandStatus::Succeeded),
{
    !matches!(status, CommandStatus::Succeeded)
}

/// A mode that writes output: every mode but `verify`.
pub fn writes_output(mode: &str) -> (r: bool)
    ensures
        r == (mode@ != "verify"@),
{
    !str_eq(mode, "verify")
}

/// The extraction mode.
pub fn is_extract_mode(mode: &str) -> (r: bool)
    ensures
        r == (mode@ == "extract"@),
{
    str_eq(mode, "extract")
}

/// The sector-size preflight runs before conversions only: a `.chd` is compressed
/// and its size is never a whole number of sectors.
pub fn needs_preflight(mode: &str) -> (r: bool)
    ensures
        r == (mode@ == "convert"@),
{
    str_eq(mode, "convert")
}

/// Whether an extraction is diverted into a free subfolder: in extract mode, when
/// writing the target would destroy existing files (`collides`, asked only then).
pub fn diverts_extraction(mode: &str, collides: impl FnOnce() -> bool) -> (r: bool)
    requires
        mode@ == "extract"@ ==> call_requires(collides, ()),
    ensures
        mode@ != "extract"@ ==> !r,
        mode@ == "extract"@ ==> call_ensures(collides, (), r),
{
    is_extract_mode(mode) && collides()
}

/// How one input of a file ended.
#[derive(Debug, PartialEq, Eq)]
pub enum ItemOutcome {
    /// Skipped by the preflight, with its warning.
    Skipped(String),
    /// Converted (or extracted, or verified) successfully.
    Done,
    /// Canceled by the user.
    Canceled,
    /// Failed, with the error when there is one.
    Failed(Option<String>),
}

/// `"{prefix}{display}"`, followed by `" ({detail})"` when there is a detail.
pub open spec fn spec_log_line(prefix: Seq<char>, display: Seq<char>, detail: Option<Seq<char>>) -> Seq<char> {
    prefix + display + match detail {
        Some(d) => " ("@ + d + ")"@,
        None => seq![],
    }
}

fn log_line(prefix: &str, display: &str, detail: Option<&str>) -> (s: String)
    ensures
        s@ == spec_log_line(
            prefix@,
            display@,
            match detail {
                Some(d) => Some(d@),
                None => None,
            },
        ),
{
    let mut s = String::new();
    s.append(prefix);
    s.append(display);
    match detail {
        Some(d) => {
            s.append(" (");
            s.append(d);
            s.append(")");
        },
        None => {},
    }
    s
}

/// The log line for a file that could not be prepared: `"FAILED: {display} ({error})"`.
pub fn preparation_failure(display: &str, error: &str) -> (s: String)
    ensures
        s@ == spec_log_line("FAILED: "@, display@, Some(error@)),
{
    log_line("FAILED: ", display, Some(error))
}

/// The log line for a source that could not be deleted.
pub fn delete_warning(display: &str, error: &str) -> (s: String)
    ensures
        s@ == spec_log_line("WARN: could not delete "@, display@, Some(error@)),
{
    log_line("WARN: could not delete ", display, Some(error))
}

/// The log line and event kind for an input of `display` that ended as `outcome`,
/// and whether the remaining inputs of the file are abandoned.
pub open spec fn spec_report(outcome: ItemOutcome, display: Seq<char>) -> (Seq<char>, EventKind, bool) {
    match outcome {
        ItemOutcome::Skipped(w) => (spec_log_line("SKIP: "@, display, Some(w@)), EventKind::Error, false),
        ItemOutcome::Done => (spec_log_line("OK: "@, display, None), EventKind::Success, false),
        ItemOutcome::Canceled => (spec_log_line("CANCELED: "@, display, None), EventKind::Canceled, true),
        ItemOutcome::Failed(e) => (
            spec_log_line(
                "FAILED: "@,
                display,
                match e {
                    Some(x) => Some(x@),
                    None => None,
                },
            ),
            EventKind::Error,
            false,
        ),
    }
}

/// Each input is reported by how it ended: `OK: ` and a success event for a
/// converted input, `SKIP: ` with the warning for a skipped one, `FAILED: ` (with the
/// error when there is one) for a failed one, and `CANCELED: ` for a canceled one,
/// each followed by the input; only a cancellation abandons the remaining inputs,
/// and only its line is one that stops the batch.
pub proof fn law_reports_follow_outcomes(outcome: ItemOutcome, display: Seq<char>)
    ensures
        spec_report(outcome, display).2 <==> outcome == ItemOutcome::Canceled,
        (spec_report(outcome, display).1 == EventKind::Success) <==> outcome == ItemOutcome::Done,
        (spec_report(outcome, display).1 == EventKind::Canceled) <==> outcome == ItemOutcome::Canceled,
        outcome == ItemOutcome::Done ==> spec_report(outcome, display).0 == "OK: "@ + display,
        outcome == ItemOutcome::Canceled ==> spec_report(outcome, display).0 == "CANCELED: "@ + display,
        outcome matches ItemOutcome::Skipped(w) ==> spec_report(outcome, display).0 == "SKIP: "@ + display + " ("@
            + w@ + ")"@,
        outcome == ItemOutcome::Failed(None) ==> spec_report(outcome, display).0 == "FAILED: "@ + display,
        outcome matches ItemOutcome::Failed(Some(e)) ==> spec_report(outcome, display).0 == "FAILED: "@ + display
            + " ("@ + e@ + ")"@,
        is_cancel_line(spec_report(outcome, display).0) <==> outcome == ItemOutcome::Canceled,
{
    reveal_strlit("OK: ");
    reveal_strlit("SKIP: ");
    reveal_strlit("FAILED: ");
    reveal_strlit("CANCELED: ");
    reveal_strlit("CANCELED:");
    let line = spec_report(outcome, display).0;
    match outcome {
        ItemOutcome::Canceled => {
            assert(line.take(9) =~= "CANCELED:"@);
        },
        ItemOutcome::Done => {
            if line.len() >= 9 {
                assert(line.take(9)[0] != "CANCELED:"@[0]);
            }
        },
        ItemOutcome::Skipped(w) => {
            if line.len() >= 9 {
                assert(line.take(9)[0] != "CANCELED:"@[0]);
            }
            assert("SKIP: "@ + display + (" ("@ + w@ + ")"@) =~= "SKIP: "@ + display + " ("@ + w@ + ")"@);
        },
        ItemOutcome::Failed(e) => {
            if line.len() >= 9 {
                assert(line.take(9)[0] != "CANCELED:"@[0]);
            }
            match e {
                Some(x) => {
                    assert(spec_log_line("FAILED: "@, display, Some(x@)) == "FAILED: "@ + display + (" ("@ + x@ + ")"@));
                    assert("FAILED: "@ + display + (" ("@ + x@ + ")"@) =~= "FAILED: "@ + display + " ("@ + x@ + ")"@);
                },
                None => {
                    assert("FAILED: "@ + display + seq![] =~= "FAILED: "@ + display);
                },
            }
        },
    }
    if outcome == ItemOutcome::Done {
        assert("OK: "@ + display + seq![] =~= "OK: "@ + display);
    }
    if outcome == ItemOutcome::Canceled {
        assert("CANCELED: "@ + display + seq![] =~= "CANCELED: "@ + display);
    }
}

/// What became of the inputs of one file so far: whether none was skipped or failed,
/// whether one was canceled, and whether one was converted.
pub struct FileTally {
    all_ok: bool,
    canceled: bool,
    converted: bool,
}

/// The tally after `outcome`: a skip or failure spoils `all_ok`, a cancellation sets
/// `canceled`, a success sets `converted`.
pub open spec fn spec_tally_step(t: (bool, bool, bool), outcome: ItemOutcome) -> (bool, bool, bool) {
    match outcome {
        ItemOutcome::Done => (t.0, t.1, true),
        ItemOutcome::Canceled => (t.0, true, t.2),
        _ => (false, t.1, t.2),
    }
}

/// The tally after a sequence of outcomes, starting from all-ok, not canceled and
/// nothing converted.
pub open spec fn spec_tally(outcomes: Seq<ItemOutcome>) -> (bool, bool, bool)
    decreases outcomes.len(),
{
    if outcomes.len() == 0 {
        (true, false, false)
    } else {
        spec_tally_step(spec_tally(outcomes.drop_last()), outcomes.last())
    }
}

/// The source of a file may be deleted when deletion is asked for, at least one input
/// was converted, every input succeeded and nothing was canceled.
pub open spec fn spec_may_delete(t: (bool, bool, bool), delete_source: bool) -> bool {
    t.0 && !t.1 && t.2 && delete_source
}

impl View for FileTally {
    type V = (bool, bool, bool);

    closed spec fn view(&self) -> (bool, bool, bool) {
        (self.all_ok, self.canceled, self.converted)
    }
}

impl FileTally {
    /// The tally of a file none of whose inputs has been processed.
    pub fn new() -> (t: Self)
        ensures
            t@ == spec_tally(Seq::<ItemOutcome>::empty()),
    {
        FileTally { all_ok: true, canceled: false, converted: false }
    }

    /// Records the outcome of an input of `display`; returns its log line, the kind
    /// of event to show, and whether the remaining inputs are abandoned.
    pub fn record(&mut self, outcome: &ItemOutcome, display: &str) -> (r: (String, EventKind, bool))
        ensures
            final(self)@ == spec_tally_step(old(self)@, *outcome),
            (r.0@, r.1, r.2) == spec_report(*outcome, display@),
    {
        match outcome {
            ItemOutcome::Skipped(w) => {
                self.all_ok = false;
                (log_line("SKIP: ", display, Some(w.as_str())), EventKind::Error, false)
            },
            ItemOutcome::Done => {
                self.converted = true;
                (log_line("OK: ", display, None), EventKind::Success, false)
            },
            ItemOutcome::Canceled => {
                self.canceled = true;
                (log_line("CANCELED: ", display, None), EventKind::Canceled, true)
            },
            ItemOutcome::Failed(e) => {
                self.all_ok = false;
                let detail = match e {
                    Some(x) => Some(x.as_str()),
                    None => None,
                };
                (log_line("FAILED: ", display, detail), EventKind::Error, false)
            },
        }
    }

    /// Records that the file `display` could not be prepared with `error`: the file
    /// is failed, so its source is kept. Returns the log line.
    pub fn record_preparation_failure(&mut self, display: &str, error: &str) -> (s: String)
        ensures
            final(self)@ == (false, old(self)@.1, old(self)@.2),
            s@ == spec_log_line("FAILED: "@, display@, Some(error@)),
            forall|d: bool| !spec_may_delete(final(self)@, d),
    {
        self.all_ok = false;
        preparation_failure(display, error)
    }

    /// Whether the source file may be deleted.
    pub fn may_delete_source(&self, delete_source: bool) -> (r: bool)
        ensures
            r == spec_may_delete(self@, delete_source),
    {
        self.all_ok && !self.canceled && self.converted && delete_source
    }
}

/// A source file is deleted only when deletion was asked for, at least one input
/// came out of its preparation, and every one of its inputs was converted: an empty
/// list of inputs, or a skipped, failed or canceled input, keeps it.
pub proof fn law_delete_only_after_full_success(outcomes: Seq<ItemOutcome>, delete_source: bool)
    requires
        spec_may_delete(spec_tally(outcomes), delete_source),
    ensures
        delete_source,
        outcomes.len() > 0,
        forall|i: int| 0 <= i < outcomes.len() ==> #[trigger] outcomes[i] == ItemOutcome::Done,
{
    lemma_tally_all_ok(outcomes);
}

/// What the tally of `outcomes` records: `converted` holds when some outcome is a
/// success, and `all_ok` and not `canceled` when every outcome is one.
proof fn lemma_tally_all_ok(outcomes: Seq<ItemOutcome>)
    ensures
        spec_tally(outcomes).2 ==> outcomes.len() > 0,
        spec_tally(outcomes).0 && !spec_tally(outcomes).1 ==> forall|i: int|
            0 <= i < outcomes.len() ==> #[trigger] outcomes[i] == ItemOutcome::Done,
    decreases outcomes.len(),
{
    if outcomes.len() > 0 {
        let prev = spec_tally(outcomes.drop_last());
        lemma_tally_all_ok(outcomes.drop_last());
        if spec_tally(outcomes).0 && !spec_tally(outcomes).1 {
            assert(prev.0 && !prev.1);
            assert(outcomes.last() == ItemOutcome::Done);
            assert forall|i: int| 0 <= i < outcomes.len() implies #[trigger] outcomes[i] == ItemOutcome::Done by {
                if i < outcomes.len() - 1 {
                    assert(outcomes[i] == outcomes.drop_last()[i]);
                }
            }
        }
    }
}

/// A log line that records a cancellation.
pub open spec fn is_cancel_line(line: Seq<char>) -> bool {
    line.len() >= 9 && line.take(9) == "CANCELED:"@
}

/// Whether any of the log lines records a cancellation (a line starting with
/// `CANCELED:`); the batch stops processing files once one does.
pub fn batch_canceled(logs: &Vec<String>) -> (r: bool)
    ensures
        r == exists|i: int| 0 <= i < logs@.len() && is_cancel_line(#[trigger] logs@[i]@),
{
    let prefix = chars_of("CANCELED:");
    proof {
        reveal_strlit("CANCELED:");
    }
    let mut i: usize = 0;
    while i < logs.len()
        invariant
            prefix@ == "CANCELED:"@,
            prefix@.len() == 9,
            i <= logs@.len(),
            forall|j: int| 0 <= j < i ==> !is_cancel_line(#[trigger] logs@[j]@),
        decreases logs@.len() - i,
    {
        let cs = chars_of(logs[i].as_str());
        let mut same = cs.len() >= 9;
        let mut k: usize = 0;
        while same && k < 9
            invariant
                prefix@.len() == 9,
                k <= 9,
                same ==> cs@.len() >= 9,
                same == (cs@.len() >= 9 && forall|m: int| 0 <= m < k ==> cs@[m] == prefix@[m]),
            decreases 9 - k,
        {
            if cs[k] != prefix[k] {
                same = false;
            }
            k = k + 1;
        }
        if same {
            assert(cs@.take(9) =~= prefix@);
            return true;
        }
        i = i + 1;
    }
    false
}


/// The closing message of a batch and the kind of its last event.
pub open spec fn spec_batch_summary(canceled: bool) -> (Seq<char>, EventKind) {
    if canceled {
        ("Batch canceled"@, EventKind::Canceled)
    } else {
        ("Batch complete"@, EventKind::Complete)
    }
}

/// How a batch ends: canceled when one of its files was canceled, complete otherwise.
pub fn batch_summary(canceled: bool) -> (r: (&'static str, EventKind))
    ensures
        (r.0@, r.1) == spec_batch_summary(canceled),
{
    if canceled {
        ("Batch canceled", EventKind::Canceled)
    } else {
        ("Batch complete", EventKind::Complete)
    }
}

} // verus!
