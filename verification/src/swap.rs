//! Swapping a staged build in for the installed one, step by step. Each step
//! is carried out by the caller, who then tells how it went.
use crate::text;
use crate::updater;
use vstd::prelude::*;

verus! {

/// Where a build can be, and the file by which a new build reports that it
/// has started.
#[derive(Clone, Copy, Debug, PartialEq, Eq, Structural)]
pub enum Place {
    Install,
    Staged,
    Backup,
    /// Where an update that failed is set aside.
    Failed,
    Ready,
}

/// How an update ended.
#[derive(Clone, Copy, Debug, PartialEq, Eq, Structural)]
pub enum Ending {
    /// The new build reported that it has started.
    Updated,
    /// The new build runs without having reported; the old one is kept.
    Retained,
    /// The update failed.
    Failed,
}

/// How far an update has come: what is to be done next.
#[derive(Clone, Copy, Debug, PartialEq, Eq, Structural)]
pub enum Phase {
    ReserveBackup,
    Preserve,
    SyncPreserved,
    Activate,
    SyncActivated,
    ReserveReady,
    LaunchUpdated,
    Await,
    RemoveReady,
    RemoveBackup,
    ReportKept,
    SyncUpdated,
    ReportRetained,
    /// The staged build could not be activated.
    RestoreUnactivated,
    SyncRestored,
    RecordFailure,
    RelaunchKept,
    /// The new build could not start.
    ReserveFailed,
    SetAside,
    RestoreBackup,
    UndoSetAside,
    SyncRolledBack,
    RemoveFailed,
    RecordRollback,
    RelaunchPrevious,
    Finished { ending: Ending },
}

/// An update under way, and what will be told about it.
pub struct Update {
    pub phase: Phase,
    pub message: String,
}

#[verifier::ext_equal]
pub struct UpdateView {
    pub phase: Phase,
    pub message: Seq<char>,
}

impl View for Update {
    type V = UpdateView;

    open spec fn view(&self) -> UpdateView {
        UpdateView { phase: self.phase, message: self.message@ }
    }
}

/// What is to be done next.
pub enum Action {
    /// Find a name that is free.
    Reserve { place: Place },
    Move { from: Place, to: Place },
    /// Have the directory that holds the installs written out.
    Sync,
    /// Write down why the update failed.
    Record { message: String },
    /// Start what is installed. One that is awaited is told where to report.
    Launch { awaited: bool },
    /// Wait until it has reported or ended, or for long enough.
    Await,
    Remove { place: Place },
    /// Tell that the old build could not be removed.
    ReportKept { error: String },
    /// Tell that the old build is kept.
    ReportRetained,
    /// Nothing is left to do. An update that failed tells why.
    Finish { reason: Option<String> },
}

pub ghost enum ActionView {
    Reserve { place: Place },
    Move { from: Place, to: Place },
    Sync,
    Record { message: Seq<char> },
    Launch { awaited: bool },
    Await,
    Remove { place: Place },
    ReportKept { error: Seq<char> },
    ReportRetained,
    Finish { reason: Option<Seq<char>> },
}

impl View for Action {
    type V = ActionView;

    open spec fn view(&self) -> ActionView {
        match *self {
            Action::Reserve { place } => ActionView::Reserve { place },
            Action::Move { from, to } => ActionView::Move { from, to },
            Action::Sync => ActionView::Sync,
            Action::Record { message } => ActionView::Record { message: message@ },
            Action::Launch { awaited } => ActionView::Launch { awaited },
            Action::Await => ActionView::Await,
            Action::Remove { place } => ActionView::Remove { place },
            Action::ReportKept { error } => ActionView::ReportKept { error: error@ },
            Action::ReportRetained => ActionView::ReportRetained,
            Action::Finish { reason } => ActionView::Finish { reason: text::text_view(reason) },
        }
    }
}

/// How a step went.
pub enum Outcome {
    Done,
    Failed { error: String },
    /// The build that is awaited has ended.
    Exited { status: String },
    /// It has been awaited for long enough.
    TimedOut,
}

pub ghost enum OutcomeView {
    Done,
    Failed { error: Seq<char> },
    Exited { status: Seq<char> },
    TimedOut,
}

impl View for Outcome {
    type V = OutcomeView;

    open spec fn view(&self) -> OutcomeView {
        match *self {
            Outcome::Done => OutcomeView::Done,
            Outcome::Failed { error } => OutcomeView::Failed { error: error@ },
            Outcome::Exited { status } => OutcomeView::Exited { status: status@ },
            Outcome::TimedOut => OutcomeView::TimedOut,
        }
    }
}

// ── What each step asks for and leads to ───────────────────────────────────

impl UpdateView {
    /// An update that has not begun.
    pub open spec fn fresh() -> UpdateView {
        UpdateView { phase: Phase::ReserveBackup, message: Seq::empty() }
    }

    /// What is to be done next.
    pub open spec fn asks(self) -> ActionView {
        match self.phase {
            Phase::ReserveBackup => ActionView::Reserve { place: Place::Backup },
            Phase::Preserve => ActionView::Move { from: Place::Install, to: Place::Backup },
            Phase::SyncPreserved => ActionView::Sync,
            Phase::Activate => ActionView::Move { from: Place::Staged, to: Place::Install },
            Phase::SyncActivated => ActionView::Sync,
            Phase::ReserveReady => ActionView::Reserve { place: Place::Ready },
            Phase::LaunchUpdated => ActionView::Launch { awaited: true },
            Phase::Await => ActionView::Await,
            Phase::RemoveReady => ActionView::Remove { place: Place::Ready },
            Phase::RemoveBackup => ActionView::Remove { place: Place::Backup },
            Phase::ReportKept => ActionView::ReportKept { error: self.message },
            Phase::SyncUpdated => ActionView::Sync,
            Phase::ReportRetained => ActionView::ReportRetained,
            Phase::RestoreUnactivated => ActionView::Move {
                from: Place::Backup,
                to: Place::Install,
            },
            Phase::SyncRestored => ActionView::Sync,
            Phase::RecordFailure => ActionView::Record { message: self.message },
            Phase::RelaunchKept => ActionView::Launch { awaited: false },
            Phase::ReserveFailed => ActionView::Reserve { place: Place::Failed },
            Phase::SetAside => ActionView::Move { from: Place::Install, to: Place::Failed },
            Phase::RestoreBackup => ActionView::Move { from: Place::Backup, to: Place::Install },
            Phase::UndoSetAside => ActionView::Move { from: Place::Failed, to: Place::Install },
            Phase::SyncRolledBack => ActionView::Sync,
            Phase::RemoveFailed => ActionView::Remove { place: Place::Failed },
            Phase::RecordRollback => ActionView::Record { message: self.message },
            Phase::RelaunchPrevious => ActionView::Launch { awaited: false },
            Phase::Finished { ending } => ActionView::Finish {
                reason: if ending == Ending::Failed {
                    Some(self.message)
                } else {
                    None
                },
            },
        }
    }

    /// The update in a later phase.
    pub open spec fn at(self, phase: Phase) -> UpdateView {
        UpdateView { phase, ..self }
    }

    /// The update in a later phase, with something to tell.
    pub open spec fn telling(self, phase: Phase, message: Seq<char>) -> UpdateView {
        UpdateView { phase, message }
    }

    /// The update after a step that went well.
    pub open spec fn after_success(self) -> UpdateView {
        match self.phase {
            Phase::ReserveBackup => self.at(Phase::Preserve),
            Phase::Preserve => self.at(Phase::SyncPreserved),
            Phase::SyncPreserved => self.at(Phase::Activate),
            Phase::Activate => self.at(Phase::SyncActivated),
            Phase::SyncActivated => self.at(Phase::ReserveReady),
            Phase::ReserveReady => self.at(Phase::LaunchUpdated),
            Phase::LaunchUpdated => self.at(Phase::Await),
            Phase::Await => self.at(Phase::RemoveReady),
            Phase::RemoveReady => self.at(Phase::RemoveBackup),
            Phase::RemoveBackup => self.at(Phase::SyncUpdated),
            Phase::ReportKept => self.at(Phase::SyncUpdated),
            Phase::SyncUpdated => self.at(Phase::Finished { ending: Ending::Updated }),
            Phase::ReportRetained => self.at(Phase::Finished { ending: Ending::Retained }),
            Phase::RestoreUnactivated => self.at(Phase::SyncRestored),
            Phase::SyncRestored => self.telling(
                Phase::RecordFailure,
                updater::because(
                    "could not activate the staged Kerenzikov install"@,
                    self.message,
                ),
            ),
            Phase::RecordFailure => self.at(Phase::RelaunchKept),
            Phase::RelaunchKept => self.at(Phase::Finished { ending: Ending::Failed }),
            Phase::ReserveFailed => self.at(Phase::SetAside),
            Phase::SetAside => self.at(Phase::RestoreBackup),
            Phase::RestoreBackup => self.at(Phase::SyncRolledBack),
            Phase::UndoSetAside => self.at(Phase::Finished { ending: Ending::Failed }),
            Phase::SyncRolledBack => self.at(Phase::RemoveFailed),
            Phase::RemoveFailed => self.at(Phase::RecordRollback),
            Phase::RecordRollback => self.at(Phase::RelaunchPrevious),
            Phase::RelaunchPrevious => self.at(Phase::Finished { ending: Ending::Failed }),
            Phase::Finished { .. } => self,
        }
    }

    /// The update after a step that failed. What is not named here goes on as
    /// if the step had gone well.
    pub open spec fn after_failure(self, error: Seq<char>) -> UpdateView {
        let failed = Phase::Finished { ending: Ending::Failed };
        match self.phase {
            Phase::ReserveBackup => self.telling(failed, error),
            Phase::Preserve => self.telling(
                Phase::RecordFailure,
                updater::because("could not preserve the current Kerenzikov install"@, error),
            ),
            Phase::Activate => self.telling(Phase::RestoreUnactivated, error),
            Phase::RestoreUnactivated => self.telling(
                failed,
                updater::because(
                    "the staged install could not be activated ("@ + self.message
                        + ") and the previous install could not be restored"@,
                    error,
                ),
            ),
            Phase::ReserveReady => self.telling(
                Phase::ReserveFailed,
                updater::because("could not reserve the update startup handshake"@, error),
            ),
            Phase::LaunchUpdated => self.telling(
                Phase::ReserveFailed,
                updater::because("the updated Kerenzikov build could not start"@, error),
            ),
            Phase::Await => self.at(Phase::ReportRetained),
            Phase::RemoveBackup => self.telling(Phase::ReportKept, error),
            Phase::ReserveFailed => self.telling(failed, error),
            Phase::SetAside => self.telling(
                failed,
                updater::because(
                    "could not move the failed update out of the install path"@,
                    error,
                ),
            ),
            Phase::RestoreBackup => self.telling(
                Phase::UndoSetAside,
                updater::because("could not restore the previous Kerenzikov install"@, error),
            ),
            Phase::RelaunchPrevious => self.telling(
                failed,
                updater::because(
                    "the previous Kerenzikov build was restored but could not be relaunched"@,
                    error,
                ),
            ),
            _ => self.after_success(),
        }
    }

    /// The update after a step. Only a build that is awaited can end or take
    /// too long.
    pub open spec fn after(self, outcome: OutcomeView) -> UpdateView {
        match outcome {
            OutcomeView::Done => self.after_success(),
            OutcomeView::Failed { error } => self.after_failure(error),
            OutcomeView::Exited { status } => if self.phase == Phase::Await {
                self.telling(
                    Phase::ReserveFailed,
                    "the updated Kerenzikov build exited before its window opened ("@ + status
                        + ")"@,
                )
            } else {
                self.after_success()
            },
            OutcomeView::TimedOut => if self.phase == Phase::Await {
                self.at(Phase::ReportRetained)
            } else {
                self.after_success()
            },
        }
    }
}

impl Update {
    /// An update that has not begun.
    pub fn new() -> (update: Update)
        ensures
            update@ == UpdateView::fresh(),
    {
        proof {
            reveal_strlit("");
        }
        let update = Update { phase: Phase::ReserveBackup, message: text::owned("") };
        assert(update@.message =~= Seq::<char>::empty());
        update
    }

    /// What is to be done next.
    pub fn action(&self) -> (action: Action)
        ensures
            action@ == self@.asks(),
    {
        match self.phase {
            Phase::ReserveBackup => Action::Reserve { place: Place::Backup },
            Phase::Preserve => Action::Move { from: Place::Install, to: Place::Backup },
            Phase::SyncPreserved => Action::Sync,
            Phase::Activate => Action::Move { from: Place::Staged, to: Place::Install },
            Phase::SyncActivated => Action::Sync,
            Phase::ReserveReady => Action::Reserve { place: Place::Ready },
            Phase::LaunchUpdated => Action::Launch { awaited: true },
            Phase::Await => Action::Await,
            Phase::RemoveReady => Action::Remove { place: Place::Ready },
            Phase::RemoveBackup => Action::Remove { place: Place::Backup },
            Phase::ReportKept => Action::ReportKept { error: self.message.clone() },
            Phase::SyncUpdated => Action::Sync,
            Phase::ReportRetained => Action::ReportRetained,
            Phase::RestoreUnactivated => Action::Move { from: Place::Backup, to: Place::Install },
            Phase::SyncRestored => Action::Sync,
            Phase::RecordFailure => Action::Record { message: self.message.clone() },
            Phase::RelaunchKept => Action::Launch { awaited: false },
            Phase::ReserveFailed => Action::Reserve { place: Place::Failed },
            Phase::SetAside => Action::Move { from: Place::Install, to: Place::Failed },
            Phase::RestoreBackup => Action::Move { from: Place::Backup, to: Place::Install },
            Phase::UndoSetAside => Action::Move { from: Place::Failed, to: Place::Install },
            Phase::SyncRolledBack => Action::Sync,
            Phase::RemoveFailed => Action::Remove { place: Place::Failed },
            Phase::RecordRollback => Action::Record { message: self.message.clone() },
            Phase::RelaunchPrevious => Action::Launch { awaited: false },
            Phase::Finished { ending } => Action::Finish {
                reason: if ending == Ending::Failed {
                    Some(self.message.clone())
                } else {
                    None
                },
            },
        }
    }

    fn succeed(&mut self)
        ensures
            final(self)@ == old(self)@.after_success(),
    {
        let next: Phase = match self.phase {
            Phase::ReserveBackup => Phase::Preserve,
            Phase::Preserve => Phase::SyncPreserved,
            Phase::SyncPreserved => Phase::Activate,
            Phase::Activate => Phase::SyncActivated,
            Phase::SyncActivated => Phase::ReserveReady,
            Phase::ReserveReady => Phase::LaunchUpdated,
            Phase::LaunchUpdated => Phase::Await,
            Phase::Await => Phase::RemoveReady,
            Phase::RemoveReady => Phase::RemoveBackup,
            Phase::RemoveBackup => Phase::SyncUpdated,
            Phase::ReportKept => Phase::SyncUpdated,
            Phase::SyncUpdated => Phase::Finished { ending: Ending::Updated },
            Phase::ReportRetained => Phase::Finished { ending: Ending::Retained },
            Phase::RestoreUnactivated => Phase::SyncRestored,
            Phase::SyncRestored => {
                self.message = updater::because_of(
                    "could not activate the staged Kerenzikov install",
                    self.message.as_str(),
                );
                Phase::RecordFailure
            },
            Phase::RecordFailure => Phase::RelaunchKept,
            Phase::RelaunchKept => Phase::Finished { ending: Ending::Failed },
            Phase::ReserveFailed => Phase::SetAside,
            Phase::SetAside => Phase::RestoreBackup,
            Phase::RestoreBackup => Phase::SyncRolledBack,
            Phase::UndoSetAside => Phase::Finished { ending: Ending::Failed },
            Phase::SyncRolledBack => Phase::RemoveFailed,
            Phase::RemoveFailed => Phase::RecordRollback,
            Phase::RecordRollback => Phase::RelaunchPrevious,
            Phase::RelaunchPrevious => Phase::Finished { ending: Ending::Failed },
            Phase::Finished { ending } => Phase::Finished { ending },
        };
        self.phase = next;
    }

    fn fail(&mut self, error: &str)
        ensures
            final(self)@ == old(self)@.after_failure(error@),
    {
        let failed = Phase::Finished { ending: Ending::Failed };
        match self.phase {
            Phase::ReserveBackup => {
                self.message = text::owned(error);
                self.phase = failed;
            },
            Phase::Preserve => {
                self.message = updater::because_of(
                    "could not preserve the current Kerenzikov install",
                    error,
                );
                self.phase = Phase::RecordFailure;
            },
            Phase::Activate => {
                self.message = text::owned(error);
                self.phase = Phase::RestoreUnactivated;
            },
            Phase::RestoreUnactivated => {
                let doing = text::prefixed(
                    "the staged install could not be activated (",
                    self.message.as_str(),
                );
                let doing = text::prefixed(
                    doing.as_str(),
                    ") and the previous install could not be restored",
                );
                self.message = updater::because_of(doing.as_str(), error);
                self.phase = failed;
            },
            Phase::ReserveReady => {
                self.message = updater::because_of("could not reserve the update startup handshake", error);
                self.phase = Phase::ReserveFailed;
            },
            Phase::LaunchUpdated => {
                self.message = updater::because_of("the updated Kerenzikov build could not start", error);
                self.phase = Phase::ReserveFailed;
            },
            Phase::Await => {
                self.phase = Phase::ReportRetained;
            },
            Phase::RemoveBackup => {
                self.message = text::owned(error);
                self.phase = Phase::ReportKept;
            },
            Phase::ReserveFailed => {
                self.message = text::owned(error);
                self.phase = failed;
            },
            Phase::SetAside => {
                self.message = updater::because_of(
                    "could not move the failed update out of the install path",
                    error,
                );
                self.phase = failed;
            },
            Phase::RestoreBackup => {
                self.message = updater::because_of(
                    "could not restore the previous Kerenzikov install",
                    error,
                );
                self.phase = Phase::UndoSetAside;
            },
            Phase::RelaunchPrevious => {
                self.message = updater::because_of(
                    "the previous Kerenzikov build was restored but could not be relaunched",
                    error,
                );
                self.phase = failed;
            },
            _ => {
                self.succeed();
            },
        }
    }

    /// Takes note of how a step went.
    pub fn advance(&mut self, outcome: &Outcome)
        ensures
            final(self)@ == old(self)@.after(outcome@),
    {
        match outcome {
            Outcome::Done => {
                self.succeed();
            },
            Outcome::Failed { error } => {
                self.fail(error.as_str());
            },
            Outcome::Exited { status } => {
                if self.phase == Phase::Await {
                    let message = text::prefixed(
                        "the updated Kerenzikov build exited before its window opened (",
                        status.as_str(),
                    );
                    self.message = text::prefixed(message.as_str(), ")");
                    self.phase = Phase::ReserveFailed;
                } else {
                    self.succeed();
                }
            },
            Outcome::TimedOut => {
                if self.phase == Phase::Await {
                    self.phase = Phase::ReportRetained;
                } else {
                    self.succeed();
                }
            },
        }
    }
}

/// How it is told that the old build could not be removed.
pub fn kept_report(backup: &str, error: &str) -> (message: String)
    ensures
        message@ == "update succeeded but the rollback copy "@ + backup@
            + " could not be removed: "@ + error@,
{
    let message = text::prefixed("update succeeded but the rollback copy ", backup);
    let message = text::prefixed(message.as_str(), " could not be removed: ");
    text::prefixed(message.as_str(), error)
}

/// How it is told that the old build is kept.
pub fn retained_report(backup: &str) -> (message: String)
    ensures
        message@
            == "the new build stayed alive but did not acknowledge startup; retaining "@
            + backup@,
{
    text::prefixed(
        "the new build stayed alive but did not acknowledge startup; retaining ",
        backup,
    )
}

// ── Waiting for the new build ──────────────────────────────────────────────

/// What was seen of the build that is awaited.
pub enum Observation {
    Running,
    Exited { status: String },
    /// It could not be observed.
    Unknown,
}

/// What a look at the build that is awaited leads to.
pub enum Poll {
    Over { outcome: Outcome },
    LookAgain,
}

pub ghost enum PollView {
    Over { outcome: OutcomeView },
    LookAgain,
}

impl View for Poll {
    type V = PollView;

    open spec fn view(&self) -> PollView {
        match *self {
            Poll::Over { outcome } => PollView::Over { outcome: outcome@ },
            Poll::LookAgain => PollView::LookAgain,
        }
    }
}

/// How long a new build is awaited, in seconds.
pub const READY_TIMEOUT_SECONDS: u64 = 60;

/// What one look at the build that is awaited leads to. A report counts even
/// when the build has ended since, and a build that can no longer be observed
/// is taken to be running.
pub fn poll_relaunch(reported: bool, seen: &Observation, deadline_passed: bool) -> (poll: Poll)
    ensures
        poll@ == (if reported {
            PollView::Over { outcome: OutcomeView::Done }
        } else {
            match *seen {
                Observation::Exited { status } => PollView::Over {
                    outcome: OutcomeView::Exited { status: status@ },
                },
                Observation::Unknown => PollView::Over { outcome: OutcomeView::TimedOut },
                Observation::Running => if deadline_passed {
                    PollView::Over { outcome: OutcomeView::TimedOut }
                } else {
                    PollView::LookAgain
                },
            }
        }),
{
    if reported {
        return Poll::Over { outcome: Outcome::Done };
    }
    match seen {
        Observation::Exited { status } => Poll::Over {
            outcome: Outcome::Exited { status: status.clone() },
        },
        Observation::Unknown => Poll::Over { outcome: Outcome::TimedOut },
        Observation::Running => if deadline_passed {
            Poll::Over { outcome: Outcome::TimedOut }
        } else {
            Poll::LookAgain
        },
    }
}

// ── What the steps do to the builds ────────────────────────────────────────

/// The two builds.
pub ghost enum Build {
    Previous,
    Replacement,
}

/// Which build stands where.
#[verifier::ext_equal]
pub ghost struct Disk {
    pub install: Option<Build>,
    pub staged: Option<Build>,
    pub backup: Option<Build>,
    pub failed: Option<Build>,
}

impl Disk {
    /// What stands at a place.
    pub open spec fn holds(self, place: Place) -> Option<Build> {
        match place {
            Place::Install => self.install,
            Place::Staged => self.staged,
            Place::Backup => self.backup,
            Place::Failed => self.failed,
            Place::Ready => None,
        }
    }

    /// The places once something stands at one of them.
    pub open spec fn put(self, place: Place, build: Option<Build>) -> Disk {
        match place {
            Place::Install => Disk { install: build, ..self },
            Place::Staged => Disk { staged: build, ..self },
            Place::Backup => Disk { backup: build, ..self },
            Place::Failed => Disk { failed: build, ..self },
            Place::Ready => self,
        }
    }

    /// The places after a step: what went well moves or removes, what failed
    /// changes nothing.
    pub open spec fn after(self, action: ActionView, outcome: OutcomeView) -> Disk {
        match action {
            ActionView::Move { from, to } => if outcome is Failed {
                self
            } else {
                self.put(to, self.holds(from)).put(from, None)
            },
            ActionView::Remove { place } => if outcome is Failed {
                self
            } else {
                self.put(place, None)
            },
            _ => self,
        }
    }

    /// Both builds before an update.
    pub open spec fn fresh() -> Disk {
        Disk {
            install: Some(Build::Previous),
            staged: Some(Build::Replacement),
            backup: None,
            failed: None,
        }
    }
}

/// An update and the builds after some steps.
pub open spec fn run_from(update: UpdateView, disk: Disk, outcomes: Seq<OutcomeView>) -> (
    UpdateView,
    Disk,
)
    decreases outcomes.len(),
{
    if outcomes.len() == 0 {
        (update, disk)
    } else {
        let (update, disk) = run_from(update, disk, outcomes.drop_last());
        (update.after(outcomes.last()), disk.after(update.asks(), outcomes.last()))
    }
}

/// An update and the builds after some steps from its beginning.
pub open spec fn run(outcomes: Seq<OutcomeView>) -> (UpdateView, Disk) {
    run_from(UpdateView::fresh(), Disk::fresh(), outcomes)
}

/// Whether the new build has reported and the old one was given up.
pub open spec fn given_up(phase: Phase) -> bool {
    phase == Phase::ReportKept || phase == Phase::SyncUpdated || phase == (Phase::Finished {
        ending: Ending::Updated,
    })
}

spec fn lies(
    disk: Disk,
    install: Option<Build>,
    staged: Option<Build>,
    backup: Option<Build>,
    failed: Option<Build>,
) -> bool {
    disk == Disk { install, staged, backup, failed }
}

spec fn updated(disk: Disk) -> bool {
    lies(disk, Some(Build::Replacement), None, None, None) || lies(
        disk,
        Some(Build::Replacement),
        None,
        Some(Build::Previous),
        None,
    )
}

spec fn in_step(phase: Phase, disk: Disk) -> bool {
    let previous = Some(Build::Previous);
    let replacement = Some(Build::Replacement);
    match phase {
        Phase::ReserveBackup | Phase::Preserve | Phase::SyncRestored | Phase::RecordFailure
        | Phase::RelaunchKept => lies(disk, previous, replacement, None, None),
        Phase::SyncPreserved | Phase::Activate | Phase::RestoreUnactivated => lies(
            disk,
            None,
            replacement,
            previous,
            None,
        ),
        Phase::SyncActivated | Phase::ReserveReady | Phase::LaunchUpdated | Phase::Await
        | Phase::RemoveReady | Phase::RemoveBackup | Phase::ReportRetained | Phase::ReserveFailed
        | Phase::SetAside => lies(disk, replacement, None, previous, None),
        Phase::ReportKept => lies(disk, replacement, None, previous, None),
        Phase::SyncUpdated => updated(disk),
        Phase::RestoreBackup | Phase::UndoSetAside => lies(
            disk,
            None,
            None,
            previous,
            replacement,
        ),
        Phase::SyncRolledBack | Phase::RemoveFailed => lies(
            disk,
            previous,
            None,
            None,
            replacement,
        ),
        Phase::RecordRollback | Phase::RelaunchPrevious => lies(disk, previous, None, None, None)
            || lies(disk, previous, None, None, replacement),
        Phase::Finished { ending } => match ending {
            Ending::Updated => updated(disk),
            Ending::Retained => lies(disk, replacement, None, previous, None),
            Ending::Failed => disk.install == previous || disk.backup == previous,
        },
    }
}

proof fn lemma_run_keeps_step(outcomes: Seq<OutcomeView>)
    ensures
        ({
            let (update, disk) = run(outcomes);
            in_step(update.phase, disk)
        }),
    decreases outcomes.len(),
{
    if outcomes.len() > 0 {
        lemma_run_keeps_step(outcomes.drop_last());
    }
}

/// Whatever goes wrong and whenever, the build that was installed is either
/// where it was or kept aside, until the new build has reported that it has
/// started.
pub proof fn the_previous_build_is_never_lost(outcomes: Seq<OutcomeView>)
    ensures
        ({
            let (update, disk) = run(outcomes);
            given_up(update.phase) || disk.install == Some(Build::Previous) || disk.backup == Some(
                Build::Previous,
            )
        }),
{
    lemma_run_keeps_step(outcomes);
}

/// A new build is only started where it is installed and the previous one is
/// kept, and a previous one is only started again where it is installed.
pub proof fn a_build_is_started_where_it_is_installed(outcomes: Seq<OutcomeView>)
    ensures
        ({
            let (update, disk) = run(outcomes);
            &&& update.asks() == (ActionView::Launch { awaited: true }) ==> disk.install == Some(
                Build::Replacement,
            ) && disk.backup == Some(Build::Previous)
            &&& update.asks() == (ActionView::Launch { awaited: false }) ==> disk.install == Some(
                Build::Previous,
            )
        }),
{
    lemma_run_keeps_step(outcomes);
}

/// An update that ends without a failure leaves the new build installed, and
/// the old one kept aside unless the new one has reported.
pub proof fn a_finished_update_is_installed(outcomes: Seq<OutcomeView>)
    ensures
        ({
            let (update, disk) = run(outcomes);
            update.phase matches Phase::Finished { ending } ==> ending != Ending::Failed ==> {
                &&& disk.install == Some(Build::Replacement)
                &&& ending == Ending::Retained ==> disk.backup == Some(Build::Previous)
            }
        }),
{
    lemma_run_keeps_step(outcomes);
}

/// A new build that could not start is rolled back: if nothing else goes
/// wrong, the old build is installed again, on its own, and the failure is
/// what is told.
pub proof fn a_failed_start_is_rolled_back(outcomes: Seq<OutcomeView>)
    requires
        run(outcomes).0.phase == Phase::ReserveFailed,
    ensures
        ({
            let (update, disk) = run(outcomes);
            let done = Seq::new(7, |i: int| OutcomeView::Done);
            let (after, restored) = run_from(update, disk, done);
            &&& after.asks() == ActionView::Finish { reason: Some(update.message) }
            &&& restored.install == Some(Build::Previous)
            &&& restored.staged is None && restored.backup is None && restored.failed is None
        }),
{
    lemma_run_keeps_step(outcomes);
    let (update, disk) = run(outcomes);
    let done = Seq::new(7, |i: int| OutcomeView::Done);
    let six = done.drop_last();
    let five = six.drop_last();
    let four = five.drop_last();
    let three = four.drop_last();
    let two = three.drop_last();
    let one = two.drop_last();
    reveal_with_fuel(run_from, 2);
    assert(run_from(update, disk, one.drop_last()) == (update, disk));
    assert(run_from(update, disk, one).0.phase == Phase::SetAside);
    assert(run_from(update, disk, two).0.phase == Phase::RestoreBackup);
    assert(run_from(update, disk, three).0.phase == Phase::SyncRolledBack);
    assert(run_from(update, disk, four).0.phase == Phase::RemoveFailed);
    assert(run_from(update, disk, five).0.phase == Phase::RecordRollback);
    assert(run_from(update, disk, six).0.phase == Phase::RelaunchPrevious);
}

spec fn remaining(phase: Phase) -> nat {
    match phase {
        Phase::ReserveBackup => 20,
        Phase::Preserve => 19,
        Phase::SyncPreserved => 18,
        Phase::Activate => 17,
        Phase::SyncActivated => 16,
        Phase::ReserveReady => 15,
        Phase::LaunchUpdated => 14,
        Phase::Await => 13,
        Phase::RemoveReady => 5,
        Phase::RemoveBackup => 4,
        Phase::ReportKept => 3,
        Phase::SyncUpdated => 1,
        Phase::ReportRetained => 1,
        Phase::RestoreUnactivated => 5,
        Phase::SyncRestored => 4,
        Phase::RecordFailure => 3,
        Phase::RelaunchKept => 2,
        Phase::ReserveFailed => 9,
        Phase::SetAside => 8,
        Phase::RestoreBackup => 7,
        Phase::UndoSetAside => 6,
        Phase::SyncRolledBack => 6,
        Phase::RemoveFailed => 5,
        Phase::RecordRollback => 4,
        Phase::RelaunchPrevious => 3,
        Phase::Finished { .. } => 0,
    }
}

proof fn lemma_each_step_leads_on(outcomes: Seq<OutcomeView>)
    ensures
        run(outcomes).0.phase is Finished || remaining(run(outcomes).0.phase) + outcomes.len()
            <= 20,
    decreases outcomes.len(),
{
    if outcomes.len() > 0 {
        lemma_each_step_leads_on(outcomes.drop_last());
    }
}

/// An update ends: after twenty steps, however they go, nothing is left to do.
pub proof fn every_update_ends(outcomes: Seq<OutcomeView>)
    requires
        outcomes.len() >= 20,
    ensures
        run(outcomes).0.phase is Finished,
{
    lemma_each_step_leads_on(outcomes);
}

} // verus!
