//! The curated rule feeds, and how they are brought up to date.

use crate::archive;
use crate::archive::{extract_rules, ArchiveFault, Extraction};
use crate::paths::Platform;
use vstd::prelude::*;

verus! {

/// A public source of YARA rules.
#[derive(Clone, Copy, Debug)]
pub struct FeedDefinition {
    pub id: &'static str,
    pub name: &'static str,
    pub description: &'static str,
    pub source_url: &'static str,
    pub archive_url: &'static str,
}

/// How many rule files came from a feed.
#[derive(Clone, Copy, Debug)]
pub struct FeedStatus {
    pub feed: FeedDefinition,
    pub rule_count: usize,
}

/// What came of bringing the feeds up to date.
#[derive(Clone, Debug)]
pub struct FeedSyncSummary {
    pub synced_feeds: usize,
    pub total_rules: usize,
    /// The directory that the rules are in.
    pub destination: String,
    pub per_feed: Vec<FeedStatus>,
}

/// The rule files of the feeds together.
pub open spec fn rule_sum(feeds: Seq<FeedStatus>) -> int
    decreases feeds.len(),
{
    if feeds.len() == 0 {
        0
    } else {
        rule_sum(feeds.drop_last()) + feeds.last().rule_count
    }
}

impl FeedSyncSummary {
    /// The totals are those of the feeds.
    pub open spec fn is_consistent(self) -> bool {
        &&& self.synced_feeds == self.per_feed@.len()
        &&& self.total_rules == rule_sum(self.per_feed@)
    }

    /// The summary before the first feed.
    pub fn new(destination: String) -> (summary: FeedSyncSummary)
        ensures
            summary.destination == destination,
            summary.per_feed@.len() == 0,
            summary.is_consistent(),
    {
        FeedSyncSummary { synced_feeds: 0, total_rules: 0, destination, per_feed: Vec::new() }
    }

    /// Whether another feed with so many rule files can be counted.
    pub open spec fn has_room_for(self, rule_count: usize) -> bool {
        self.synced_feeds < usize::MAX && self.total_rules + rule_count <= usize::MAX
    }

    /// Counts a feed with its rule files.
    pub fn record(&mut self, feed: FeedDefinition, rule_count: usize)
        requires
            old(self).has_room_for(rule_count),
        ensures
            final(self).synced_feeds == old(self).synced_feeds + 1,
            final(self).total_rules == old(self).total_rules + rule_count,
            final(self).destination == old(self).destination,
            final(self).per_feed@ == old(self).per_feed@.push(FeedStatus { feed, rule_count }),
            old(self).is_consistent() ==> final(self).is_consistent(),
    {
        self.synced_feeds += 1;
        self.total_rules += rule_count;
        let ghost before = self.per_feed@;
        self.per_feed.push(FeedStatus { feed, rule_count });
        assert(self.per_feed@.drop_last() =~= before);
    }
}

impl Default for FeedSyncSummary {
    fn default() -> (summary: FeedSyncSummary)
        ensures
            summary.destination@.len() == 0,
            summary.per_feed@.len() == 0,
            summary.is_consistent(),
    {
        FeedSyncSummary::new(String::new())
    }
}

/// The feed of the Yara-Rules project.
pub open spec fn yara_rules_feed() -> FeedDefinition {
    FeedDefinition {
        id: "yara-rules",
        name: "Yara-Rules",
        description: "Large community-maintained public YARA repository.",
        source_url: "https://github.com/Yara-Rules/rules",
        archive_url: "https://codeload.github.com/Yara-Rules/rules/zip/refs/heads/master",
    }
}

/// The feed of the signature-base project.
pub open spec fn signature_base_feed() -> FeedDefinition {
    FeedDefinition {
        id: "signature-base",
        name: "Neo23x0 signature-base",
        description: "Widely used YARA and IOC repository curated for defenders.",
        source_url: "https://github.com/Neo23x0/signature-base",
        archive_url: "https://codeload.github.com/Neo23x0/signature-base/zip/refs/heads/master",
    }
}

/// The feeds that are brought up to date, in this order.
pub fn curated_feeds() -> (feeds: Vec<FeedDefinition>)
    ensures
        feeds@ == seq![yara_rules_feed(), signature_base_feed()],
{
    let mut feeds: Vec<FeedDefinition> = Vec::new();
    feeds.push(
        FeedDefinition {
            id: "yara-rules",
            name: "Yara-Rules",
            description: "Large community-maintained public YARA repository.",
            source_url: "https://github.com/Yara-Rules/rules",
            archive_url: "https://codeload.github.com/Yara-Rules/rules/zip/refs/heads/master",
        },
    );
    feeds.push(
        FeedDefinition {
            id: "signature-base",
            name: "Neo23x0 signature-base",
            description: "Widely used YARA and IOC repository curated for defenders.",
            source_url: "https://github.com/Neo23x0/signature-base",
            archive_url: "https://codeload.github.com/Neo23x0/signature-base/zip/refs/heads/master",
        },
    );
    feeds
}

/// The directories, from the outer to the inner, in which the feeds keep their rules.
pub fn default_feed_rules_dir() -> (parts: Vec<&'static str>)
    ensures
        parts@ == seq!["feeds", "rules"],
{
    let mut parts: Vec<&'static str> = Vec::new();
    parts.push("feeds");
    parts.push("rules");
    parts
}

/// What can fail outside.
#[derive(Clone, Copy, Debug, PartialEq, Eq, Structural)]
pub enum SyncFault {
    /// The directory of all feeds could not be made.
    BaseNotMade,
    /// There is nothing to download with.
    NoClient,
    /// A directory could not be removed.
    NotCleared,
    /// A file or a directory could not be made.
    NotMade,
    /// A request got no answer.
    NotSent,
    /// A request was answered with a failure.
    BadStatus,
    /// An answer could not be read.
    NotRead,
    /// A file could not be written.
    NotWritten,
}

/// The message about something that failed outside, with a path or an address as it is shown.
pub open spec fn fault_text(fault: SyncFault, shown: Seq<char>) -> Seq<char> {
    match fault {
        SyncFault::BaseNotMade => "could not create "@ + shown,
        SyncFault::NoClient => "failed to build HTTP client"@,
        SyncFault::NotCleared => "failed to clean "@ + shown,
        SyncFault::NotMade => "failed to create "@ + shown,
        SyncFault::NotSent => "failed to download "@ + shown,
        SyncFault::BadStatus => "download failed for "@ + shown,
        SyncFault::NotRead => "failed to read archive bytes"@,
        SyncFault::NotWritten => "failed to write "@ + shown,
    }
}

/// The message about something that failed outside, with a path or an address as it is shown.
pub fn fault_message(fault: SyncFault, shown: &str) -> (message: String)
    ensures
        message@ == fault_text(fault, shown@),
{
    match fault {
        SyncFault::BaseNotMade => "could not create ".to_owned().concat(shown),
        SyncFault::NoClient => "failed to build HTTP client".to_owned(),
        SyncFault::NotCleared => "failed to clean ".to_owned().concat(shown),
        SyncFault::NotMade => "failed to create ".to_owned().concat(shown),
        SyncFault::NotSent => "failed to download ".to_owned().concat(shown),
        SyncFault::BadStatus => "download failed for ".to_owned().concat(shown),
        SyncFault::NotRead => "failed to read archive bytes".to_owned(),
        SyncFault::NotWritten => "failed to write ".to_owned().concat(shown),
    }
}

/// What the surrounding program saw.
#[derive(Debug)]
pub enum SyncObservation {
    /// What was to be done is done.
    Done,
    /// Whether the directory of the feed is there.
    Present(bool),
    /// The bytes that were downloaded.
    Downloaded(Vec<u8>),
    /// What was to be done failed, at a path or an address as it is shown.
    Failure { fault: SyncFault, shown: String },
}

/// What the surrounding program is to do.
#[derive(Debug)]
pub enum SyncAction {
    /// Make the directory of all feeds.
    MakeBase,
    /// Get ready to download, under this name.
    Connect(&'static str),
    /// See whether the directory of the feed is there.
    Probe(FeedDefinition),
    /// Remove the directory of the feed with all that is in it.
    Clear(FeedDefinition),
    /// Make the directory of the feed.
    Make(FeedDefinition),
    /// Download the archive of the feed.
    Download(FeedDefinition),
    /// Write the rule files into the directory of the feed. Where the archive ends in a rule file
    /// that cannot be read to its end, write the beginning of that too, and fail to write it.
    Write(FeedDefinition, Extraction),
    /// Report the summary.
    Finish,
    /// Report a failure.
    Fail(String),
    /// Do nothing more.
    Stop,
}

/// What bringing the feeds up to date waits for.
#[derive(Debug)]
pub enum SyncPhase {
    Base,
    Connecting,
    Probing,
    Clearing,
    Making,
    Downloading,
    /// So many rule files are written.
    Writing(usize),
    /// Rule files are written up to a place where the archive cannot be read.
    WritingPart(String),
    /// Rule files are written up to one that cannot be.
    WritingBroken,
    Over,
}

/// Feeds that are being brought up to date.
#[derive(Debug)]
pub struct FeedSync {
    pub platform: Platform,
    pub feeds: Vec<FeedDefinition>,
    /// The place of the feed that is at hand.
    pub current: usize,
    pub phase: SyncPhase,
    pub summary: FeedSyncSummary,
}

impl FeedSync {
    /// The feed at hand is one of the feeds, as long as something is done for a feed, and the
    /// summary is that of the feeds before it.
    pub open spec fn wf(self) -> bool {
        &&& self.current <= self.feeds@.len()
        &&& self.summary.is_consistent()
        &&& self.summary.per_feed@.len() == self.current
        &&& forall|i: int|
            0 <= i < self.current ==> (#[trigger] self.summary.per_feed@[i]).feed == self.feeds@[i]
        &&& match self.phase {
            SyncPhase::Base => true,
            SyncPhase::Connecting => true,
            SyncPhase::Over => true,
            _ => self.current < self.feeds@.len(),
        }
    }

    /// Whether the rule files that are written can still be counted.
    pub open spec fn has_room(self) -> bool {
        self.phase matches SyncPhase::Writing(count) ==> self.summary.has_room_for(count)
    }

    /// Whether two states differ in nothing but what they wait for.
    pub open spec fn same_but_phase(self, other: FeedSync) -> bool {
        &&& self.platform == other.platform
        &&& self.feeds == other.feeds
        &&& self.current == other.current
        &&& self.summary == other.summary
    }
}

/// The next feed comes to hand, or the feeds are at their end.
pub open spec fn takes_feed(after: FeedSync, action: SyncAction) -> bool {
    if after.current < after.feeds@.len() {
        after.phase is Probing && action == SyncAction::Probe(after.feeds@[after.current as int])
    } else {
        after.phase is Over && action is Finish
    }
}

/// The feeds are given up with a message.
pub open spec fn gives_up(
    before: FeedSync,
    after: FeedSync,
    action: SyncAction,
    message: Seq<char>,
) -> bool {
    &&& after.same_but_phase(before)
    &&& after.phase is Over
    &&& action matches SyncAction::Fail(text) && text@ == message
}

/// What is waited for while the rule files of an archive are written.
pub open spec fn awaits_writing(phase: SyncPhase, out: Extraction) -> bool {
    match out.fault {
        None => phase == SyncPhase::Writing(out.files@.len() as usize),
        Some(ArchiveFault::NotAnArchive) => phase matches SyncPhase::WritingPart(text) && text@
            == "failed to open ZIP archive"@,
        Some(ArchiveFault::UnreadableEntry) => phase matches SyncPhase::WritingPart(text) && text@
            == "failed to read ZIP entry"@,
        Some(ArchiveFault::UnreadableContent { .. }) => phase is WritingBroken,
    }
}

/// The next state and what is to be done, for each state and what was seen in it.
pub open spec fn steps(
    before: FeedSync,
    seen: SyncObservation,
    after: FeedSync,
    action: SyncAction,
) -> bool {
    let feed = before.feeds@[before.current as int];
    match (before.phase, seen) {
        (SyncPhase::Over, _) => after == before && action is Stop,
        (_, SyncObservation::Failure { fault, shown }) => gives_up(
            before,
            after,
            action,
            fault_text(fault, shown@),
        ),
        (SyncPhase::Base, SyncObservation::Done) => {
            &&& after.same_but_phase(before)
            &&& after.phase is Connecting
            &&& action == SyncAction::Connect("astra-sentinel/0.3.0")
        },
        (SyncPhase::Connecting, SyncObservation::Done) => {
            after.same_but_phase(before) && takes_feed(after, action)
        },
        (SyncPhase::Probing, SyncObservation::Present(present)) => {
            &&& after.same_but_phase(before)
            &&& if present {
                after.phase is Clearing && action == SyncAction::Clear(feed)
            } else {
                after.phase is Making && action == SyncAction::Make(feed)
            }
        },
        (SyncPhase::Clearing, SyncObservation::Done) => {
            &&& after.same_but_phase(before)
            &&& after.phase is Making
            &&& action == SyncAction::Make(feed)
        },
        (SyncPhase::Making, SyncObservation::Done) => {
            &&& after.same_but_phase(before)
            &&& after.phase is Downloading
            &&& action == SyncAction::Download(feed)
        },
        (SyncPhase::Downloading, SyncObservation::Downloaded(bytes)) => {
            &&& after.same_but_phase(before)
            &&& action matches SyncAction::Write(of, out) && of == feed && archive::is_extraction(
                bytes@,
                before.platform,
                out@,
            ) && awaits_writing(after.phase, out)
        },
        (SyncPhase::Writing(count), SyncObservation::Done) => {
            &&& after.platform == before.platform
            &&& after.feeds == before.feeds
            &&& after.current == before.current + 1
            &&& after.summary.synced_feeds == before.summary.synced_feeds + 1
            &&& after.summary.total_rules == before.summary.total_rules + count
            &&& after.summary.destination == before.summary.destination
            &&& after.summary.per_feed@ == before.summary.per_feed@.push(
                FeedStatus { feed, rule_count: count },
            )
            &&& takes_feed(after, action)
        },
        (SyncPhase::WritingPart(message), SyncObservation::Done) => gives_up(
            before,
            after,
            action,
            message@,
        ),
        _ => after.same_but_phase(before) && after.phase is Over && action is Stop,
    }
}

/// Starts to bring the curated feeds up to date, with the directory of all feeds.
pub fn sync_curated_feeds(base_rules_dir: String, platform: Platform) -> (started: (
    FeedSync,
    SyncAction,
))
    ensures
        started.0.wf(),
        started.0.platform == platform,
        started.0.feeds@ == seq![yara_rules_feed(), signature_base_feed()],
        started.0.current == 0,
        started.0.phase is Base,
        started.0.summary.destination == base_rules_dir,
        started.1 is MakeBase,
{
    let sync = FeedSync {
        platform,
        feeds: curated_feeds(),
        current: 0,
        phase: SyncPhase::Base,
        summary: FeedSyncSummary::new(base_rules_dir),
    };
    (sync, SyncAction::MakeBase)
}

impl FeedSync {
    /// Whether the rule files that are written can still be counted.
    pub fn can_step(&self) -> (can: bool)
        ensures
            can == self.has_room(),
    {
        match &self.phase {
            SyncPhase::Writing(count) => self.summary.synced_feeds < usize::MAX
                && self.summary.total_rules <= usize::MAX - *count,
            _ => true,
        }
    }

    fn take_feed(&mut self) -> (action: SyncAction)
        requires
            old(self).current <= old(self).feeds@.len(),
        ensures
            final(self).same_but_phase(*old(self)),
            takes_feed(*final(self), action),
    {
        if self.current < self.feeds.len() {
            self.phase = SyncPhase::Probing;
            SyncAction::Probe(self.feeds[self.current])
        } else {
            self.phase = SyncPhase::Over;
            SyncAction::Finish
        }
    }

    fn give_up(&mut self, message: String) -> (action: SyncAction)
        ensures
            gives_up(*old(self), *final(self), action, message@),
    {
        self.phase = SyncPhase::Over;
        SyncAction::Fail(message)
    }

    fn write(&mut self, bytes: Vec<u8>) -> (action: SyncAction)
        requires
            old(self).current < old(self).feeds@.len(),
        ensures
            final(self).same_but_phase(*old(self)),
            action matches SyncAction::Write(of, out) && of
                == old(self).feeds@[old(self).current as int] && archive::is_extraction(
                bytes@,
                old(self).platform,
                out@,
            ) && awaits_writing(final(self).phase, out),
    {
        let out = extract_rules(bytes, self.platform);
        self.phase = match &out.fault {
            None => SyncPhase::Writing(out.files.len()),
            Some(ArchiveFault::NotAnArchive) => SyncPhase::WritingPart(
                "failed to open ZIP archive".to_owned(),
            ),
            Some(ArchiveFault::UnreadableEntry) => SyncPhase::WritingPart(
                "failed to read ZIP entry".to_owned(),
            ),
            Some(ArchiveFault::UnreadableContent { .. }) => SyncPhase::WritingBroken,
        };
        SyncAction::Write(self.feeds[self.current], out)
    }

    fn count(&mut self, rule_count: usize) -> (action: SyncAction)
        requires
            old(self).wf(),
            old(self).current < old(self).feeds@.len(),
            old(self).summary.has_room_for(rule_count),
        ensures
            final(self).wf(),
            final(self).platform == old(self).platform,
            final(self).feeds == old(self).feeds,
            final(self).current == old(self).current + 1,
            final(self).summary.synced_feeds == old(self).summary.synced_feeds + 1,
            final(self).summary.total_rules == old(self).summary.total_rules + rule_count,
            final(self).summary.destination == old(self).summary.destination,
            final(self).summary.per_feed@ == old(self).summary.per_feed@.push(
                FeedStatus { feed: old(self).feeds@[old(self).current as int], rule_count },
            ),
            takes_feed(*final(self), action),
    {
        let feed = self.feeds[self.current];
        self.summary.record(feed, rule_count);
        self.current += 1;
        self.take_feed()
    }

    /// Goes on from what was seen.
    pub fn step(&mut self, seen: SyncObservation) -> (action: SyncAction)
        requires
            old(self).wf(),
            old(self).has_room(),
        ensures
            final(self).wf(),
            steps(*old(self), seen, *final(self), action),
    {
        let mut phase = SyncPhase::Over;
        std::mem::swap(&mut phase, &mut self.phase);
        match (phase, seen) {
            (SyncPhase::Over, _) => SyncAction::Stop,
            (_, SyncObservation::Failure { fault, shown }) => {
                let message = fault_message(fault, &shown);
                self.give_up(message)
            },
            (SyncPhase::Base, SyncObservation::Done) => {
                self.phase = SyncPhase::Connecting;
                SyncAction::Connect("astra-sentinel/0.3.0")
            },
            (SyncPhase::Connecting, SyncObservation::Done) => self.take_feed(),
            (SyncPhase::Probing, SyncObservation::Present(present)) => {
                if present {
                    self.phase = SyncPhase::Clearing;
                    SyncAction::Clear(self.feeds[self.current])
                } else {
                    self.phase = SyncPhase::Making;
                    SyncAction::Make(self.feeds[self.current])
                }
            },
            (SyncPhase::Clearing, SyncObservation::Done) => {
                self.phase = SyncPhase::Making;
                SyncAction::Make(self.feeds[self.current])
            },
            (SyncPhase::Making, SyncObservation::Done) => {
                self.phase = SyncPhase::Downloading;
                SyncAction::Download(self.feeds[self.current])
            },
            (SyncPhase::Downloading, SyncObservation::Downloaded(bytes)) => self.write(bytes),
            (SyncPhase::Writing(count), SyncObservation::Done) => self.count(count),
            (SyncPhase::WritingPart(message), SyncObservation::Done) => self.give_up(message),
            _ => SyncAction::Stop,
        }
    }
}

/// A finished run brought each curated feed up to date, in their order, and its totals are those
/// of the feeds.
pub proof fn finished_sync_covers_feeds(
    before: FeedSync,
    seen: SyncObservation,
    after: FeedSync,
    action: SyncAction,
)
    requires
        before.wf(),
        after.wf(),
        steps(before, seen, after, action),
        action is Finish,
    ensures
        after.summary.synced_feeds == after.feeds@.len(),
        after.summary.per_feed@.len() == after.feeds@.len(),
        forall|i: int|
            0 <= i < after.feeds@.len() ==> (#[trigger] after.summary.per_feed@[i]).feed
                == after.feeds@[i],
        after.summary.total_rules == rule_sum(after.summary.per_feed@),
{
}

/// A feed is only written to after its directory was made anew, and its directory is only made
/// where there was none or it was removed.
pub proof fn feed_is_made_anew(
    before: FeedSync,
    seen: SyncObservation,
    after: FeedSync,
    action: SyncAction,
)
    requires
        steps(before, seen, after, action),
    ensures
        action is Write ==> before.phase is Downloading,
        action is Download ==> before.phase is Making,
        action is Make ==> before.phase is Clearing || (before.phase is Probing && seen
            == SyncObservation::Present(false)),
        action is Clear ==> before.phase is Probing && seen == SyncObservation::Present(true),
{
}

/// The rule files of feeds are those of all of them together.
pub proof fn rules_add_up(a: Seq<FeedStatus>, b: Seq<FeedStatus>, one: FeedStatus)
    ensures
        rule_sum(a + b) == rule_sum(a) + rule_sum(b),
        rule_sum(seq![one]) == one.rule_count,
    decreases b.len(),
{
    reveal_with_fuel(rule_sum, 2);
    assert(seq![one].drop_last() =~= Seq::<FeedStatus>::empty());
    if b.len() == 0 {
        assert(a + b =~= a);
    } else {
        rules_add_up(a, b.drop_last(), one);
        assert((a + b).drop_last() =~= a + b.drop_last());
        assert((a + b).last() == b.last());
    }
}

/// Feeds that are brought up to date, from the start: the states, what was seen in each of them,
/// and what was done then.
pub open spec fn is_run(
    states: Seq<FeedSync>,
    seen: Seq<SyncObservation>,
    actions: Seq<SyncAction>,
) -> bool {
    &&& states.len() == seen.len() + 1
    &&& actions.len() == seen.len()
    &&& states[0].phase is Base
    &&& states[0].current == 0
    &&& forall|i: int| 0 <= i < states.len() ==> (#[trigger] states[i]).wf()
    &&& forall|i: int|
        0 <= i < seen.len() ==> #[trigger] steps(states[i], seen[i], states[i + 1], actions[i])
}

proof fn lemma_action_fixes_phase(
    states: Seq<FeedSync>,
    seen: Seq<SyncObservation>,
    actions: Seq<SyncAction>,
    n: int,
)
    requires
        is_run(states, seen, actions),
        0 <= n < actions.len(),
    ensures
        ({
            let feed = states[n + 1].feeds@[states[n + 1].current as int];
            match actions[n] {
                SyncAction::MakeBase => false,
                SyncAction::Connect(_) => states[n + 1].phase is Connecting && states[n
                    + 1].current == 0,
                SyncAction::Probe(of) => states[n + 1].phase is Probing && of == feed,
                SyncAction::Clear(of) => states[n + 1].phase is Clearing && of == feed,
                SyncAction::Make(of) => states[n + 1].phase is Making && of == feed,
                SyncAction::Download(of) => states[n + 1].phase is Downloading && of == feed,
                SyncAction::Write(of, out) => of == feed && awaits_writing(states[n + 1].phase, out),
                SyncAction::Finish => states[n + 1].phase is Over,
                SyncAction::Fail(_) => states[n + 1].phase is Over,
                SyncAction::Stop => states[n + 1].phase is Over,
            }
        }),
        states[n + 1].feeds == states[n].feeds,
        states[n + 1].platform == states[n].platform,
{
    assert(states[n].wf());
    assert(steps(states[n], seen[n], states[n + 1], actions[n]));
    if states[n].phase is Base && n > 0 {
        lemma_base_is_first(states, seen, actions, n);
    }
}

proof fn lemma_base_is_first(
    states: Seq<FeedSync>,
    seen: Seq<SyncObservation>,
    actions: Seq<SyncAction>,
    n: int,
)
    requires
        is_run(states, seen, actions),
        0 < n <= actions.len(),
    ensures
        !(states[n].phase is Base),
{
    assert(steps(states[n - 1], seen[n - 1], states[n - 1 + 1], actions[n - 1]));
}

/// Each feed is looked for, cleared where it is there, made, downloaded and written, in this order
/// and under its own name; what is written is what its archive holds; and when all of it is
/// written the next feed is taken, or the feeds are finished after the last one. What fails ends it
/// with its message, and nothing is done after that.
pub proof fn each_feed_takes_its_course(
    states: Seq<FeedSync>,
    seen: Seq<SyncObservation>,
    actions: Seq<SyncAction>,
    n: int,
)
    requires
        is_run(states, seen, actions),
        0 < n < actions.len(),
    ensures
        match (actions[n - 1], seen[n]) {
            (SyncAction::Finish, _) => actions[n] is Stop,
            (SyncAction::Fail(_), _) => actions[n] is Stop,
            (SyncAction::Stop, _) => actions[n] is Stop,
            (_, SyncObservation::Failure { fault, shown }) => actions[n] matches SyncAction::Fail(
                text,
            ) && text@ == fault_text(fault, shown@),
            (SyncAction::Connect(_), SyncObservation::Done) => states[n].feeds@.len() > 0
                ==> actions[n] == SyncAction::Probe(states[n].feeds@[0]),
            (SyncAction::Probe(feed), SyncObservation::Present(true)) => actions[n]
                == SyncAction::Clear(feed),
            (SyncAction::Probe(feed), SyncObservation::Present(false)) => actions[n]
                == SyncAction::Make(feed),
            (SyncAction::Clear(feed), SyncObservation::Done) => actions[n] == SyncAction::Make(feed),
            (SyncAction::Make(feed), SyncObservation::Done) => actions[n] == SyncAction::Download(
                feed,
            ),
            (SyncAction::Download(feed), SyncObservation::Downloaded(bytes)) => actions[n] matches
                SyncAction::Write(of, out) && of == feed && archive::is_extraction(
                bytes@,
                states[n].platform,
                out@,
            ),
            (SyncAction::Write(feed, out), SyncObservation::Done) => {
                &&& out.fault is None && states[n].current + 1 < states[n].feeds@.len()
                    ==> actions[n] == SyncAction::Probe(states[n].feeds@[states[n].current + 1])
                &&& out.fault is None && states[n].current + 1 == states[n].feeds@.len()
                    ==> actions[n] is Finish
                &&& out.fault is None && out.files@.len() <= usize::MAX ==> states[n
                    + 1].summary.per_feed@.last() == (FeedStatus {
                    feed,
                    rule_count: out.files@.len() as usize,
                })
                &&& out.fault matches Some(ArchiveFault::NotAnArchive) ==> (actions[n] matches
                    SyncAction::Fail(text) && text@ == "failed to open ZIP archive"@)
                &&& out.fault matches Some(ArchiveFault::UnreadableEntry) ==> (actions[n] matches
                    SyncAction::Fail(text) && text@ == "failed to read ZIP entry"@)
                &&& out.fault is Some ==> !(actions[n] is Probe) && !(actions[n] is Finish)
            },
            _ => true,
        },
{
    lemma_action_fixes_phase(states, seen, actions, n - 1);
    assert(states[n].wf());
    assert(steps(states[n], seen[n], states[n + 1], actions[n]));
}

/// The feeds begin with the directory of all of them, and with a name to download under.
pub proof fn feeds_begin_with_their_directory(
    states: Seq<FeedSync>,
    seen: Seq<SyncObservation>,
    actions: Seq<SyncAction>,
)
    requires
        is_run(states, seen, actions),
        seen.len() > 0,
    ensures
        seen[0] is Done ==> (actions[0] matches SyncAction::Connect(name) && name@
            == "astra-sentinel/0.3.0"@),
        seen[0] matches SyncObservation::Failure { fault, shown } ==> (actions[0] matches
            SyncAction::Fail(text) && text@ == fault_text(fault, shown@)),
{
    assert(steps(states[0], seen[0], states[0int + 1], actions[0]));
}

/// The message about something that failed outside names it, where a path or an address does.
pub proof fn fault_names_its_place(shown: Seq<char>)
    ensures
        fault_text(SyncFault::BaseNotMade, shown) == "could not create "@ + shown,
        fault_text(SyncFault::NotCleared, shown) == "failed to clean "@ + shown,
        fault_text(SyncFault::NotMade, shown) == "failed to create "@ + shown,
        fault_text(SyncFault::NotSent, shown) == "failed to download "@ + shown,
        fault_text(SyncFault::BadStatus, shown) == "download failed for "@ + shown,
        fault_text(SyncFault::NotWritten, shown) == "failed to write "@ + shown,
{
}

} // verus!
