//! The course of a scan: after each thing that the surrounding program saw, what it does next.

use crate::engine::{
    should_skip_for_size, update_summary, Elapsed, ScanEvent, ScanRequest, ScanResult, ScanSummary,
    ScanTarget, Verdict,
};
use vstd::prelude::*;

verus! {

/// What a walk over the target comes upon.
#[derive(Debug)]
pub enum WalkEntry {
    /// A file.
    File(String),
    /// Anything else.
    Other,
    /// Something that could not be read, with its path where that is known.
    Unreadable { path: Option<String>, message: String },
}

/// What the surrounding program saw.
#[derive(Debug)]
pub enum ScanObservation {
    /// The database was loaded, with so many signatures.
    DatabaseLoaded(usize),
    /// The rules were loaded, from so many files.
    RulesLoaded(usize),
    /// The event was delivered.
    Delivered,
    /// Nobody receives events any more.
    Undelivered,
    /// Whether the target is there and of the kind that was asked for.
    TargetPresent(bool),
    /// The walk came upon an entry. `cancelled` says whether the scan was to stop by then.
    Entry { cancelled: bool, entry: WalkEntry },
    /// The walk is over.
    EndOfWalk,
    /// The kind and the size of the file.
    Measured { is_file: bool, len: u64 },
    /// The file was scanned.
    Scanned(ScanResult),
    /// The time since the scan began.
    Clock(Elapsed),
    /// What was to be done failed.
    Failure(String),
}

/// What the surrounding program is to do.
#[derive(Debug)]
pub enum ScanAction {
    /// Load the signature database.
    LoadDatabase(String),
    /// Load the rules.
    LoadRules(String),
    /// Deliver an event.
    Send(ScanEvent),
    /// See whether the target is there and of its kind.
    Inspect(ScanTarget),
    /// Go on to the next entry; a file is the only entry of itself.
    Next,
    /// See the kind and the size of a file.
    Measure(String),
    /// Scan a file.
    Scan(String),
    /// Read the time since the scan began.
    ReadClock,
    /// Do nothing more.
    Stop,
}

/// What a scan waits for.
#[derive(Debug)]
pub enum ScanPhase {
    Database,
    Rules,
    Announced,
    Inspecting,
    Walking,
    Measuring(String),
    Scanning,
    Reporting,
    Timing,
    Concluding,
    Failing,
    Over,
}

/// A scan that is under way.
#[derive(Debug)]
pub struct ScanSession {
    pub request: ScanRequest,
    pub phase: ScanPhase,
    pub signature_count: usize,
    pub rule_files: usize,
    pub summary: ScanSummary,
    pub cancelled: bool,
}

/// How many entries are announced: one file, or an unknown number, which is shown as none.
pub open spec fn announced_total(target: ScanTarget) -> usize {
    match target {
        ScanTarget::File(_) => 1,
        ScanTarget::Directory(_) => 0,
    }
}

/// The message about a target that is not there or of another kind.
pub open spec fn missing_target(target: ScanTarget) -> Seq<char> {
    "scan target "@ + target.path()@ + match target {
        ScanTarget::File(_) => " is not a file"@,
        ScanTarget::Directory(_) => " is not a directory"@,
    }
}

/// The message where nobody receives events any more.
pub open spec fn closed_channel() -> Seq<char> {
    "sending on a closed channel"@
}

impl ScanSession {
    /// The counters can be counted up, and none is ahead of the number of files.
    pub open spec fn has_room(self) -> bool {
        &&& self.summary.is_consistent()
        &&& self.summary.files_scanned < usize::MAX
        &&& self.summary.skipped_files < usize::MAX
    }

    /// Whether two states differ in nothing but what they wait for.
    pub open spec fn same_but_phase(self, other: ScanSession) -> bool {
        &&& self.request == other.request
        &&& self.signature_count == other.signature_count
        &&& self.rule_files == other.rule_files
        &&& self.summary == other.summary
        &&& self.cancelled == other.cancelled
    }
}

/// The scan gives up with a message.
pub open spec fn gives_up(
    before: ScanSession,
    after: ScanSession,
    action: ScanAction,
    message: Seq<char>,
) -> bool {
    &&& after.same_but_phase(before)
    &&& after.phase is Failing
    &&& action matches ScanAction::Send(ScanEvent::Failed(text)) && text@ == message
}

/// The scan announces what it loaded.
pub open spec fn announces(after: ScanSession, action: ScanAction) -> bool {
    &&& after.phase is Announced
    &&& action == ScanAction::Send(
        ScanEvent::Started {
            total: announced_total(after.request.target),
            signature_count: after.signature_count,
            rule_files: after.rule_files,
        },
    )
}

/// The walk is over: the scan asks for the time.
pub open spec fn ends_walk(after: ScanSession, action: ScanAction) -> bool {
    after.phase is Timing && action is ReadClock
}

/// The scan is done with an entry: a file has no other, a directory may.
pub open spec fn moves_on(after: ScanSession, action: ScanAction) -> bool {
    match after.request.target {
        ScanTarget::File(_) => ends_walk(after, action),
        ScanTarget::Directory(_) => after.phase is Walking && action is Next,
    }
}

/// The scan counts a result and reports it.
pub open spec fn reports(
    before: ScanSession,
    after: ScanSession,
    action: ScanAction,
    result: ScanResult,
) -> bool {
    &&& after.phase is Reporting
    &&& after.request == before.request
    &&& after.signature_count == before.signature_count
    &&& after.rule_files == before.rule_files
    &&& after.cancelled == before.cancelled
    &&& after.summary == before.summary.counting(result)
    &&& action == ScanAction::Send(ScanEvent::FileScanned(result))
}

/// Where an entry is that could not be read: where it says, or else at the target.
pub open spec fn entry_location(target: ScanTarget, path: Option<String>) -> String {
    match path {
        Some(known) => known,
        None => target.path(),
    }
}

/// What an entry that was not cancelled leads to.
pub open spec fn handles_entry(
    before: ScanSession,
    entry: WalkEntry,
    after: ScanSession,
    action: ScanAction,
) -> bool {
    match entry {
        WalkEntry::File(path) => {
            &&& after.same_but_phase(before)
            &&& if before.request.policy.max_file_size_bytes is Some {
                after.phase == ScanPhase::Measuring(path) && action == ScanAction::Measure(path)
            } else {
                after.phase is Scanning && action == ScanAction::Scan(path)
            }
        },
        WalkEntry::Other => after.same_but_phase(before) && moves_on(after, action),
        WalkEntry::Unreadable { path, message } => match action {
            ScanAction::Send(ScanEvent::FileScanned(result)) => {
                &&& result.is_failure(
                    entry_location(before.request.target, path)@,
                    message@,
                    Elapsed { secs: 0, nanos: 0 },
                )
                &&& reports(before, after, action, result)
            },
            _ => false,
        },
    }
}

/// The next state and what is to be done, for each state and what was seen in it.
pub open spec fn steps(
    before: ScanSession,
    seen: ScanObservation,
    after: ScanSession,
    action: ScanAction,
) -> bool {
    match (before.phase, seen) {
        (ScanPhase::Database, ScanObservation::DatabaseLoaded(count)) => {
            &&& after.request == before.request
            &&& after.signature_count == count
            &&& after.rule_files == before.rule_files
            &&& after.summary == before.summary
            &&& after.cancelled == before.cancelled
            &&& match before.request.rules_path {
                Some(path) => after.phase is Rules && action == ScanAction::LoadRules(path),
                None => announces(after, action),
            }
        },
        (ScanPhase::Rules, ScanObservation::RulesLoaded(count)) => {
            &&& after.request == before.request
            &&& after.signature_count == before.signature_count
            &&& after.rule_files == count
            &&& after.summary == before.summary
            &&& after.cancelled == before.cancelled
            &&& announces(after, action)
        },
        (ScanPhase::Announced, ScanObservation::Delivered) => {
            &&& after.same_but_phase(before)
            &&& after.phase is Inspecting
            &&& action == ScanAction::Inspect(before.request.target)
        },
        (ScanPhase::Inspecting, ScanObservation::TargetPresent(present)) => if present {
            after.same_but_phase(before) && after.phase is Walking && action is Next
        } else {
            gives_up(before, after, action, missing_target(before.request.target))
        },
        (ScanPhase::Walking, ScanObservation::EndOfWalk) => {
            after.same_but_phase(before) && ends_walk(after, action)
        },
        (ScanPhase::Walking, ScanObservation::Entry { cancelled, entry }) => if cancelled {
            &&& after.request == before.request
            &&& after.signature_count == before.signature_count
            &&& after.rule_files == before.rule_files
            &&& after.summary == before.summary
            &&& after.cancelled
            &&& ends_walk(after, action)
        } else {
            handles_entry(before, entry, after, action)
        },
        (ScanPhase::Measuring(path), ScanObservation::Measured { is_file, len }) => {
            if before.request.policy.is_oversized(is_file, len) {
                &&& after.request == before.request
                &&& after.signature_count == before.signature_count
                &&& after.rule_files == before.rule_files
                &&& after.cancelled == before.cancelled
                &&& after.summary == (ScanSummary {
                    skipped_files: (before.summary.skipped_files + 1) as usize,
                    ..before.summary
                })
                &&& moves_on(after, action)
            } else {
                &&& after.same_but_phase(before)
                &&& after.phase is Scanning
                &&& action == ScanAction::Scan(path)
            }
        },
        (ScanPhase::Scanning, ScanObservation::Scanned(result)) => reports(
            before,
            after,
            action,
            result,
        ),
        (ScanPhase::Reporting, ScanObservation::Delivered) => {
            after.same_but_phase(before) && moves_on(after, action)
        },
        (ScanPhase::Timing, ScanObservation::Clock(elapsed)) => {
            &&& after.request == before.request
            &&& after.signature_count == before.signature_count
            &&& after.rule_files == before.rule_files
            &&& after.cancelled == before.cancelled
            &&& after.summary == (ScanSummary { elapsed, ..before.summary })
            &&& after.phase is Concluding
            &&& action == ScanAction::Send(
                ScanEvent::Finished { summary: after.summary, cancelled: after.cancelled },
            )
        },
        (ScanPhase::Database, ScanObservation::Failure(message)) => gives_up(
            before,
            after,
            action,
            message@,
        ),
        (ScanPhase::Rules, ScanObservation::Failure(message)) => gives_up(
            before,
            after,
            action,
            message@,
        ),
        (ScanPhase::Measuring(_), ScanObservation::Failure(message)) => gives_up(
            before,
            after,
            action,
            message@,
        ),
        (ScanPhase::Announced, ScanObservation::Undelivered) => gives_up(
            before,
            after,
            action,
            closed_channel(),
        ),
        (ScanPhase::Reporting, ScanObservation::Undelivered) => gives_up(
            before,
            after,
            action,
            closed_channel(),
        ),
        (ScanPhase::Concluding, ScanObservation::Undelivered) => gives_up(
            before,
            after,
            action,
            closed_channel(),
        ),
        _ => after.same_but_phase(before) && after.phase is Over && action is Stop,
    }
}

/// Starts a scan, with the loading of the database.
pub fn run_scan(request: ScanRequest) -> (started: (ScanSession, ScanAction))
    ensures
        started.0 == (ScanSession {
            request,
            phase: ScanPhase::Database,
            signature_count: 0,
            rule_files: 0,
            summary: ScanSummary::zero(),
            cancelled: false,
        }),
        started.1 == ScanAction::LoadDatabase(request.database_path),
{
    let path = request.database_path.clone();
    let session = ScanSession {
        request,
        phase: ScanPhase::Database,
        signature_count: 0,
        rule_files: 0,
        summary: ScanSummary::default(),
        cancelled: false,
    };
    (session, ScanAction::LoadDatabase(path))
}

impl ScanSession {
    fn give_up(&mut self, message: String) -> (action: ScanAction)
        ensures
            gives_up(*old(self), *final(self), action, message@),
    {
        self.phase = ScanPhase::Failing;
        ScanAction::Send(ScanEvent::Failed(message))
    }

    fn announce(&mut self) -> (action: ScanAction)
        ensures
            final(self).same_but_phase(*old(self)),
            announces(*final(self), action),
    {
        self.phase = ScanPhase::Announced;
        let total: usize = match &self.request.target {
            ScanTarget::File(_) => 1,
            ScanTarget::Directory(_) => 0,
        };
        ScanAction::Send(
            ScanEvent::Started {
                total,
                signature_count: self.signature_count,
                rule_files: self.rule_files,
            },
        )
    }

    fn end_walk(&mut self) -> (action: ScanAction)
        ensures
            final(self).same_but_phase(*old(self)),
            ends_walk(*final(self), action),
    {
        self.phase = ScanPhase::Timing;
        ScanAction::ReadClock
    }

    fn move_on(&mut self) -> (action: ScanAction)
        ensures
            final(self).same_but_phase(*old(self)),
            moves_on(*final(self), action),
    {
        match &self.request.target {
            ScanTarget::File(_) => {
                self.phase = ScanPhase::Timing;
                ScanAction::ReadClock
            },
            ScanTarget::Directory(_) => {
                self.phase = ScanPhase::Walking;
                ScanAction::Next
            },
        }
    }

    fn report(&mut self, result: ScanResult) -> (action: ScanAction)
        requires
            old(self).has_room(),
        ensures
            reports(*old(self), *final(self), action, result),
            final(self).summary.is_consistent(),
    {
        update_summary(&mut self.summary, &result);
        self.phase = ScanPhase::Reporting;
        ScanAction::Send(ScanEvent::FileScanned(result))
    }

    fn target_path(&self) -> (path: String)
        ensures
            path == self.request.target.path(),
    {
        match &self.request.target {
            ScanTarget::File(path) => path.clone(),
            ScanTarget::Directory(path) => path.clone(),
        }
    }

    fn copy_target(&self) -> (target: ScanTarget)
        ensures
            target == self.request.target,
    {
        match &self.request.target {
            ScanTarget::File(path) => ScanTarget::File(path.clone()),
            ScanTarget::Directory(path) => ScanTarget::Directory(path.clone()),
        }
    }

    fn missing_target_message(&self) -> (message: String)
        ensures
            message@ == missing_target(self.request.target),
    {
        let mut message = "scan target ".to_owned();
        message.append(&self.target_path());
        match &self.request.target {
            ScanTarget::File(_) => message.append(" is not a file"),
            ScanTarget::Directory(_) => message.append(" is not a directory"),
        }
        message
    }

    fn handle_entry(&mut self, entry: WalkEntry) -> (action: ScanAction)
        requires
            old(self).has_room(),
        ensures
            handles_entry(*old(self), entry, *final(self), action),
            final(self).summary.is_consistent(),
    {
        match entry {
            WalkEntry::File(path) => {
                if self.request.policy.max_file_size_bytes.is_some() {
                    self.phase = ScanPhase::Measuring(path.clone());
                    ScanAction::Measure(path)
                } else {
                    self.phase = ScanPhase::Scanning;
                    ScanAction::Scan(path)
                }
            },
            WalkEntry::Other => self.move_on(),
            WalkEntry::Unreadable { path, message } => {
                let location = match path {
                    Some(known) => known,
                    None => self.target_path(),
                };
                let result = ScanResult::error(location, message);
                self.report(result)
            },
        }
    }

    /// Whether the counters can still be counted up.
    pub fn can_step(&self) -> (can: bool)
        ensures
            can == self.has_room(),
    {
        self.summary.hash_detections <= self.summary.files_scanned && self.summary.yara_detections
            <= self.summary.files_scanned && self.summary.errors <= self.summary.files_scanned
            && self.summary.files_scanned < usize::MAX && self.summary.skipped_files < usize::MAX
    }

    /// Goes on from what was seen. What does not fit the state ends the scan.
    pub fn step(&mut self, seen: ScanObservation) -> (action: ScanAction)
        requires
            old(self).has_room(),
        ensures
            steps(*old(self), seen, *final(self), action),
            final(self).summary.is_consistent(),
    {
        let mut phase = ScanPhase::Over;
        std::mem::swap(&mut phase, &mut self.phase);
        match (phase, seen) {
            (ScanPhase::Database, ScanObservation::DatabaseLoaded(count)) => {
                self.signature_count = count;
                match &self.request.rules_path {
                    Some(path) => {
                        let path = path.clone();
                        self.phase = ScanPhase::Rules;
                        ScanAction::LoadRules(path)
                    },
                    None => self.announce(),
                }
            },
            (ScanPhase::Rules, ScanObservation::RulesLoaded(count)) => {
                self.rule_files = count;
                self.announce()
            },
            (ScanPhase::Announced, ScanObservation::Delivered) => {
                self.phase = ScanPhase::Inspecting;
                ScanAction::Inspect(self.copy_target())
            },
            (ScanPhase::Inspecting, ScanObservation::TargetPresent(present)) => {
                if present {
                    self.phase = ScanPhase::Walking;
                    ScanAction::Next
                } else {
                    let message = self.missing_target_message();
                    self.give_up(message)
                }
            },
            (ScanPhase::Walking, ScanObservation::EndOfWalk) => self.end_walk(),
            (ScanPhase::Walking, ScanObservation::Entry { cancelled, entry }) => {
                if cancelled {
                    self.cancelled = true;
                    self.end_walk()
                } else {
                    self.handle_entry(entry)
                }
            },
            (ScanPhase::Measuring(path), ScanObservation::Measured { is_file, len }) => {
                if should_skip_for_size(&self.request.policy, is_file, len) {
                    self.summary.skipped_files += 1;
                    self.move_on()
                } else {
                    self.phase = ScanPhase::Scanning;
                    ScanAction::Scan(path)
                }
            },
            (ScanPhase::Scanning, ScanObservation::Scanned(result)) => self.report(result),
            (ScanPhase::Reporting, ScanObservation::Delivered) => self.move_on(),
            (ScanPhase::Timing, ScanObservation::Clock(elapsed)) => {
                self.summary.elapsed = elapsed;
                self.phase = ScanPhase::Concluding;
                ScanAction::Send(
                    ScanEvent::Finished { summary: self.summary, cancelled: self.cancelled },
                )
            },
            (ScanPhase::Database, ScanObservation::Failure(message)) => self.give_up(message),
            (ScanPhase::Rules, ScanObservation::Failure(message)) => self.give_up(message),
            (ScanPhase::Measuring(_), ScanObservation::Failure(message)) => self.give_up(message),
            (ScanPhase::Announced, ScanObservation::Undelivered) => {
                self.give_up("sending on a closed channel".to_owned())
            },
            (ScanPhase::Reporting, ScanObservation::Undelivered) => {
                self.give_up("sending on a closed channel".to_owned())
            },
            (ScanPhase::Concluding, ScanObservation::Undelivered) => {
                self.give_up("sending on a closed channel".to_owned())
            },
            _ => ScanAction::Stop,
        }
    }
}

/// A scan from its start: its states, what was seen in each of them, and what was done then.
pub open spec fn is_run(
    states: Seq<ScanSession>,
    seen: Seq<ScanObservation>,
    actions: Seq<ScanAction>,
) -> bool {
    &&& states.len() == seen.len() + 1
    &&& actions.len() == seen.len()
    &&& states[0].phase is Database
    &&& states[0].summary == ScanSummary::zero()
    &&& !states[0].cancelled
    &&& forall|i: int|
        0 <= i < seen.len() ==> states[i].has_room() && #[trigger] steps(
            states[i],
            seen[i],
            states[i + 1],
            actions[i],
        )
}

/// The result that an action reports.
pub open spec fn reported(action: ScanAction) -> Option<ScanResult> {
    match action {
        ScanAction::Send(ScanEvent::FileScanned(result)) => Some(result),
        _ => None,
    }
}

/// How many of the actions report a result that is of interest.
pub open spec fn tally(actions: Seq<ScanAction>, counts: spec_fn(ScanResult) -> bool) -> nat
    decreases actions.len(),
{
    if actions.len() == 0 {
        0
    } else {
        tally(actions.drop_last(), counts) + match reported(actions.last()) {
            Some(result) => if counts(result) {
                1nat
            } else {
                0
            },
            None => 0,
        }
    }
}

/// Whether a summary counts what the actions report.
pub open spec fn counts_reports(summary: ScanSummary, actions: Seq<ScanAction>) -> bool {
    &&& summary.files_scanned == tally(actions, |result: ScanResult| true)
    &&& summary.hash_detections == tally(actions, |result: ScanResult| result.detected)
    &&& summary.yara_detections == tally(
        actions,
        |result: ScanResult| result.yara_matches@.len() > 0,
    )
    &&& summary.errors == tally(actions, |result: ScanResult| result.verdict == Verdict::Error)
}

/// At every moment of a scan the summary counts the results that were reported, those with a hash
/// hit, those with a rule match and those in error, each exactly; so none of these counts exceeds
/// the number of files.
pub proof fn summary_counts_reports(
    states: Seq<ScanSession>,
    seen: Seq<ScanObservation>,
    actions: Seq<ScanAction>,
    n: int,
)
    requires
        is_run(states, seen, actions),
        0 <= n <= actions.len(),
    ensures
        counts_reports(states[n].summary, actions.take(n)),
        states[n].summary.is_consistent(),
    decreases n,
{
    if n == 0 {
        assert(actions.take(0) =~= Seq::<ScanAction>::empty());
    } else {
        summary_counts_reports(states, seen, actions, n - 1);
        assert(steps(states[n - 1], seen[n - 1], states[n - 1 + 1], actions[n - 1]));
        assert(actions.take(n).drop_last() =~= actions.take(n - 1));
        assert(actions.take(n).last() == actions[n - 1]);
    }
}

/// The summary that a scan finishes with counts exactly the results that it reported before.
pub proof fn finished_summary_counts_reports(
    states: Seq<ScanSession>,
    seen: Seq<ScanObservation>,
    actions: Seq<ScanAction>,
    n: int,
)
    requires
        is_run(states, seen, actions),
        0 <= n < actions.len(),
        actions[n] matches ScanAction::Send(ScanEvent::Finished { .. }),
    ensures
        actions[n] matches ScanAction::Send(ScanEvent::Finished { summary, .. }) ==> counts_reports(
            summary,
            actions.take(n),
        ) && summary.is_consistent(),
{
    summary_counts_reports(states, seen, actions, n);
    assert(steps(states[n], seen[n], states[n + 1], actions[n]));
}

/// Where the policy limits the size of files, a file is only scanned after it was measured and
/// found to keep to the limit.
pub proof fn scanned_file_fits(
    states: Seq<ScanSession>,
    seen: Seq<ScanObservation>,
    actions: Seq<ScanAction>,
    n: int,
)
    requires
        is_run(states, seen, actions),
        0 <= n < actions.len(),
        actions[n] is Scan,
        states[n].request.policy.max_file_size_bytes is Some,
    ensures
        seen[n] matches ScanObservation::Measured { is_file, len }
            && !states[n].request.policy.is_oversized(is_file, len),
{
    assert(steps(states[n], seen[n], states[n + 1], actions[n]));
}

/// Whether the scan has nothing left to look at.
pub open spec fn is_closing(phase: ScanPhase) -> bool {
    phase is Timing || phase is Concluding || phase is Failing || phase is Over
}

/// Whether an action looks at the target or reports a file.
pub open spec fn touches_files(action: ScanAction) -> bool {
    match action {
        ScanAction::Inspect(_) => true,
        ScanAction::Next => true,
        ScanAction::Measure(_) => true,
        ScanAction::Scan(_) => true,
        ScanAction::Send(ScanEvent::FileScanned(_)) => true,
        _ => false,
    }
}

proof fn lemma_closing_stays(
    states: Seq<ScanSession>,
    seen: Seq<ScanObservation>,
    actions: Seq<ScanAction>,
    from: int,
    n: int,
)
    requires
        is_run(states, seen, actions),
        0 <= from <= n <= actions.len(),
        is_closing(states[from].phase),
    ensures
        is_closing(states[n].phase),
        states[n].cancelled == states[from].cancelled,
    decreases n,
{
    if n > from {
        lemma_closing_stays(states, seen, actions, from, n - 1);
        assert(steps(states[n - 1], seen[n - 1], states[n - 1 + 1], actions[n - 1]));
    }
}

/// A scan that was told to stop touches no further file and says so: once a walk was cancelled,
/// nothing is inspected, measured, scanned or reported any more, and where the scan finishes, it
/// finishes as cancelled.
pub proof fn cancelled_scan_stops(
    states: Seq<ScanSession>,
    seen: Seq<ScanObservation>,
    actions: Seq<ScanAction>,
    at: int,
    n: int,
)
    requires
        is_run(states, seen, actions),
        0 <= at <= n < actions.len(),
        states[at].phase is Walking,
        seen[at] matches ScanObservation::Entry { cancelled: true, .. },
    ensures
        !touches_files(actions[n]),
        actions[n] matches ScanAction::Send(ScanEvent::Finished { cancelled, .. }) ==> cancelled,
{
    assert(steps(states[at], seen[at], states[at + 1], actions[at]));
    if n > at {
        lemma_closing_stays(states, seen, actions, at + 1, n);
        assert(steps(states[n], seen[n], states[n + 1], actions[n]));
    }
}

/// A scan that has finished or failed touches no further file.
pub proof fn ended_scan_stays_ended(
    states: Seq<ScanSession>,
    seen: Seq<ScanObservation>,
    actions: Seq<ScanAction>,
    at: int,
    n: int,
)
    requires
        is_run(states, seen, actions),
        0 <= at < n < actions.len(),
        actions[at] matches ScanAction::Send(ScanEvent::Finished { .. }) || actions[at] matches
            ScanAction::Send(ScanEvent::Failed(_)) || actions[at] is Stop,
    ensures
        !touches_files(actions[n]),
{
    assert(steps(states[at], seen[at], states[at + 1], actions[at]));
    lemma_closing_stays(states, seen, actions, at + 1, n);
    assert(steps(states[n], seen[n], states[n + 1], actions[n]));
}

/// Whether an action reports the end of a scan.
pub open spec fn reports_end(action: ScanAction) -> bool {
    match action {
        ScanAction::Send(ScanEvent::Finished { .. }) => true,
        ScanAction::Send(ScanEvent::Failed(_)) => true,
        _ => false,
    }
}

proof fn lemma_over_stays(
    states: Seq<ScanSession>,
    seen: Seq<ScanObservation>,
    actions: Seq<ScanAction>,
    from: int,
    n: int,
)
    requires
        is_run(states, seen, actions),
        0 <= from <= n < actions.len(),
        states[from].phase is Over,
    ensures
        states[n].phase is Over,
        actions[n] is Stop,
    decreases n,
{
    if n > from {
        lemma_over_stays(states, seen, actions, from, n - 1);
        assert(steps(states[n - 1], seen[n - 1], states[n - 1 + 1], actions[n - 1]));
    }
    assert(steps(states[n], seen[n], states[n + 1], actions[n]));
}

/// The end of a scan is reported once, and nothing is reported after it. The exception is a report
/// of success that nobody received: a report of failure follows it, and nothing after that.
pub proof fn end_is_reported_once(
    states: Seq<ScanSession>,
    seen: Seq<ScanObservation>,
    actions: Seq<ScanAction>,
    at: int,
    n: int,
)
    requires
        is_run(states, seen, actions),
        0 <= at < n < actions.len(),
        reports_end(actions[at]),
        actions[at] matches ScanAction::Send(ScanEvent::Finished { .. }) ==> !(seen[at
            + 1] is Undelivered),
    ensures
        !(actions[n] is Send),
{
    assert(steps(states[at], seen[at], states[at + 1], actions[at]));
    assert(steps(states[at + 1], seen[at + 1], states[at + 1 + 1], actions[at + 1]));
    if n > at + 1 {
        lemma_over_stays(states, seen, actions, at + 2, n);
    }
}

/// What a scan waits for after an action.
proof fn lemma_action_fixes_phase(
    states: Seq<ScanSession>,
    seen: Seq<ScanObservation>,
    actions: Seq<ScanAction>,
    n: int,
)
    requires
        is_run(states, seen, actions),
        0 <= n < actions.len(),
    ensures
        match actions[n] {
            ScanAction::LoadDatabase(_) => false,
            ScanAction::LoadRules(_) => states[n + 1].phase is Rules,
            ScanAction::Send(ScanEvent::Started { .. }) => states[n + 1].phase is Announced,
            ScanAction::Send(ScanEvent::FileScanned(_)) => states[n + 1].phase is Reporting,
            ScanAction::Send(ScanEvent::Finished { .. }) => states[n + 1].phase is Concluding,
            ScanAction::Send(ScanEvent::Failed(_)) => states[n + 1].phase is Failing,
            ScanAction::Inspect(_) => states[n + 1].phase is Inspecting,
            ScanAction::Next => states[n + 1].phase is Walking,
            ScanAction::Measure(path) => states[n + 1].phase == ScanPhase::Measuring(path),
            ScanAction::Scan(_) => states[n + 1].phase is Scanning,
            ScanAction::ReadClock => states[n + 1].phase is Timing,
            ScanAction::Stop => states[n + 1].phase is Over,
        },
{
    assert(steps(states[n], seen[n], states[n + 1], actions[n]));
}

proof fn lemma_request_stays(
    states: Seq<ScanSession>,
    seen: Seq<ScanObservation>,
    actions: Seq<ScanAction>,
    n: int,
)
    requires
        is_run(states, seen, actions),
        0 <= n <= actions.len(),
    ensures
        states[n].request == states[0].request,
    decreases n,
{
    if n > 0 {
        lemma_request_stays(states, seen, actions, n - 1);
        assert(steps(states[n - 1], seen[n - 1], states[n - 1 + 1], actions[n - 1]));
    }
}

/// Whether a scan is done with an entry: a directory has a next one, a file has not.
pub open spec fn goes_on(target: ScanTarget, action: ScanAction) -> bool {
    match target {
        ScanTarget::File(_) => action is ReadClock,
        ScanTarget::Directory(_) => action is Next,
    }
}

/// Every file that the walk comes upon is scanned, or measured first where there is a limit, and
/// then scanned unless it is longer than the limit; every result is reported as it is, and the
/// walk goes on after it, whatever the result was; what cannot be read is reported with its path,
/// or that of the target, and its message.
pub proof fn every_file_is_scanned_and_reported(
    states: Seq<ScanSession>,
    seen: Seq<ScanObservation>,
    actions: Seq<ScanAction>,
    n: int,
)
    requires
        is_run(states, seen, actions),
        0 < n < actions.len(),
    ensures
        ({
            let target = states[0].request.target;
            let limit = states[0].request.policy.max_file_size_bytes;
            match (actions[n - 1], seen[n]) {
                (ScanAction::Next, ScanObservation::Entry { cancelled: true, .. }) => {
                    actions[n] is ReadClock
                },
                (
                    ScanAction::Next,
                    ScanObservation::Entry { cancelled: false, entry: WalkEntry::File(path) },
                ) => actions[n] == if limit is None {
                    ScanAction::Scan(path)
                } else {
                    ScanAction::Measure(path)
                },
                (
                    ScanAction::Next,
                    ScanObservation::Entry { cancelled: false, entry: WalkEntry::Other },
                ) => goes_on(target, actions[n]),
                (
                    ScanAction::Next,
                    ScanObservation::Entry {
                        cancelled: false,
                        entry: WalkEntry::Unreadable { path, message },
                    },
                ) => actions[n] matches ScanAction::Send(ScanEvent::FileScanned(result)) && {
                    &&& result.verdict is Error
                    &&& result.error matches Some(text) && text@ == message@
                    &&& path matches Some(known) ==> result.file_path@ == known@
                    &&& path is None ==> result.file_path@ == target.path()@
                },
                (ScanAction::Next, ScanObservation::EndOfWalk) => actions[n] is ReadClock,
                (ScanAction::Measure(path), ScanObservation::Measured { is_file, len }) => {
                    if is_file && limit is Some && len > limit->0 {
                        goes_on(target, actions[n])
                    } else {
                        actions[n] == ScanAction::Scan(path)
                    }
                },
                (ScanAction::Scan(_), ScanObservation::Scanned(result)) => actions[n]
                    == ScanAction::Send(ScanEvent::FileScanned(result)),
                (
                    ScanAction::Send(ScanEvent::FileScanned(_)),
                    ScanObservation::Delivered,
                ) => goes_on(target, actions[n]),
                _ => true,
            }
        }),
{
    lemma_action_fixes_phase(states, seen, actions, n - 1);
    lemma_request_stays(states, seen, actions, n);
    assert(steps(states[n], seen[n], states[n + 1], actions[n]));
}

/// A scan loads the database, then the rules where it has some, says what it loaded, looks at its
/// target and walks over it, and reports the time with its counts at the end. What fails on the
/// way is reported as it was said.
pub proof fn scan_takes_its_course(
    states: Seq<ScanSession>,
    seen: Seq<ScanObservation>,
    actions: Seq<ScanAction>,
    n: int,
)
    requires
        is_run(states, seen, actions),
        0 < n < actions.len(),
    ensures
        match (actions[n - 1], seen[n]) {
            (ScanAction::LoadRules(_), ScanObservation::RulesLoaded(_)) => actions[n] matches
                ScanAction::Send(ScanEvent::Started { .. }),
            (ScanAction::Send(ScanEvent::Started { .. }), ScanObservation::Delivered) => actions[n]
                == ScanAction::Inspect(states[0].request.target),
            (ScanAction::Inspect(_), ScanObservation::TargetPresent(true)) => actions[n] is Next,
            (ScanAction::Inspect(_), ScanObservation::TargetPresent(false)) => actions[n] matches
                ScanAction::Send(ScanEvent::Failed(text)) && text@ == "scan target "@
                + states[0].request.target.path()@ + if states[0].request.target is File {
                " is not a file"@
            } else {
                " is not a directory"@
            },
            (ScanAction::Send(ScanEvent::Started { .. }), ScanObservation::Undelivered) => {
                reports_end(actions[n])
            },
            (ScanAction::Send(ScanEvent::FileScanned(_)), ScanObservation::Undelivered) => {
                reports_end(actions[n])
            },
            (ScanAction::ReadClock, ScanObservation::Clock(elapsed)) => actions[n] matches
                ScanAction::Send(ScanEvent::Finished { summary, .. }) && summary.elapsed == elapsed,
            (ScanAction::LoadRules(_), ScanObservation::Failure(message)) => actions[n] matches
                ScanAction::Send(ScanEvent::Failed(text)) && text@ == message@,
            (ScanAction::Measure(_), ScanObservation::Failure(message)) => actions[n] matches
                ScanAction::Send(ScanEvent::Failed(text)) && text@ == message@,
            (ScanAction::Send(ScanEvent::Finished { .. }), ScanObservation::Delivered) => {
                actions[n] is Stop
            },
            (ScanAction::Send(ScanEvent::Failed(_)), _) => actions[n] is Stop,
            _ => true,
        },
{
    lemma_action_fixes_phase(states, seen, actions, n - 1);
    lemma_request_stays(states, seen, actions, n);
    assert(steps(states[n], seen[n], states[n + 1], actions[n]));
}

/// What a scan says at its start is what was loaded: one file or an unknown number of them, the
/// signatures of the database, and the rule files, where rules were asked for.
pub proof fn start_says_what_was_loaded(
    states: Seq<ScanSession>,
    seen: Seq<ScanObservation>,
    actions: Seq<ScanAction>,
)
    requires
        is_run(states, seen, actions),
        seen.len() >= 2,
        states[0].rule_files == 0,
    ensures
        match (states[0].request.rules_path, seen[0], seen[1]) {
            (None, ScanObservation::DatabaseLoaded(count), _) => actions[0] == ScanAction::Send(
                ScanEvent::Started {
                    total: if states[0].request.target is File {
                        1
                    } else {
                        0
                    },
                    signature_count: count,
                    rule_files: 0,
                },
            ),
            (
                Some(path),
                ScanObservation::DatabaseLoaded(count),
                ScanObservation::RulesLoaded(files),
            ) => actions[0] == ScanAction::LoadRules(path) && actions[1] == ScanAction::Send(
                ScanEvent::Started {
                    total: if states[0].request.target is File {
                        1
                    } else {
                        0
                    },
                    signature_count: count,
                    rule_files: files,
                },
            ),
            (_, ScanObservation::Failure(message), _) => actions[0] matches ScanAction::Send(
                ScanEvent::Failed(text),
            ) && text@ == message@,
            _ => true,
        },
{
    assert(steps(states[0], seen[0], states[0int + 1], actions[0]));
    assert(steps(states[1], seen[1], states[1int + 1], actions[1]));
}

/// How many files were measured and found to be longer than the limit.
pub open spec fn oversized_files(
    limit: Option<u64>,
    seen: Seq<ScanObservation>,
    actions: Seq<ScanAction>,
    n: int,
) -> nat
    decreases n,
{
    if n <= 0 {
        0
    } else {
        oversized_files(limit, seen, actions, n - 1) + if n >= 2 && actions[n - 2] is Measure && (
        seen[n - 1] matches ScanObservation::Measured { is_file: true, len } && limit is Some && len
            > limit->0) {
            1nat
        } else {
            0
        }
    }
}

/// At every moment of a scan the number of skipped files is that of the files that were measured
/// and found to be longer than the limit.
pub proof fn summary_counts_skipped_files(
    states: Seq<ScanSession>,
    seen: Seq<ScanObservation>,
    actions: Seq<ScanAction>,
    n: int,
)
    requires
        is_run(states, seen, actions),
        0 <= n <= actions.len(),
    ensures
        states[n].summary.skipped_files == oversized_files(
            states[0].request.policy.max_file_size_bytes,
            seen,
            actions,
            n,
        ),
    decreases n,
{
    if n > 0 {
        summary_counts_skipped_files(states, seen, actions, n - 1);
        lemma_request_stays(states, seen, actions, n - 1);
        assert(steps(states[n - 1], seen[n - 1], states[n - 1 + 1], actions[n - 1]));
        if n >= 2 {
            lemma_action_fixes_phase(states, seen, actions, n - 2);
            if states[n - 1].phase is Measuring {
                assert(steps(states[n - 2], seen[n - 2], states[n - 2 + 1], actions[n - 2]));
                assert(actions[n - 2] is Measure);
            }
        }
    }
}

/// A scan finishes as cancelled exactly where it came upon an entry after it was told to stop.
pub proof fn scan_is_cancelled_where_it_was_told_to_stop(
    states: Seq<ScanSession>,
    seen: Seq<ScanObservation>,
    actions: Seq<ScanAction>,
    n: int,
)
    requires
        is_run(states, seen, actions),
        0 <= n <= actions.len(),
    ensures
        states[n].cancelled <==> exists|i: int|
            0 < i < n && (#[trigger] seen[i] matches ScanObservation::Entry { cancelled: true, .. })
                && actions[i - 1] is Next,
        n < actions.len() ==> (actions[n] matches ScanAction::Send(
            ScanEvent::Finished { cancelled, .. },
        ) ==> cancelled == states[n].cancelled),
    decreases n,
{
    if n < actions.len() {
        assert(steps(states[n], seen[n], states[n + 1], actions[n]));
    }
    if n > 0 {
        let k = n - 1;
        scan_is_cancelled_where_it_was_told_to_stop(states, seen, actions, k);
        assert(steps(states[k], seen[k], states[k + 1], actions[k]));
        if k > 0 {
            lemma_action_fixes_phase(states, seen, actions, k - 1);
            assert(steps(states[k - 1], seen[k - 1], states[k - 1 + 1], actions[k - 1]));
        }
        let told = k > 0 && (seen[k] matches ScanObservation::Entry { cancelled: true, .. })
            && actions[k - 1] is Next;
        if states[n].cancelled && !told {
            assert(states[k].cancelled);
            let i = choose|i: int|
                0 < i < k && (#[trigger] seen[i] matches ScanObservation::Entry {
                    cancelled: true,
                    ..
                }) && actions[i - 1] is Next;
            assert(0 < i < n);
        }
        if told {
            assert(states[n].cancelled);
        }
        if exists|i: int|
            0 < i < n && (#[trigger] seen[i] matches ScanObservation::Entry { cancelled: true, .. })
                && actions[i - 1] is Next {
            let i = choose|i: int|
                0 < i < n && (#[trigger] seen[i] matches ScanObservation::Entry {
                    cancelled: true,
                    ..
                }) && actions[i - 1] is Next;
            if i < k {
                assert(states[k].cancelled);
            }
        }
    }
}

} // verus!
