//! The helper that swaps a staged build in for the installed one: what it is
//! asked to do, whether it may, and the steps that it takes, each undone when
//! the next one fails.
use crate::text;
use vstd::prelude::*;

verus! {

// ── What the helper is asked ───────────────────────────────────────────────

/// An argument of the command line. One that is not text is known by what can
/// be shown of it.
pub struct Argument {
    pub shown: String,
    pub is_text: bool,
}

#[verifier::ext_equal]
pub struct ArgumentView {
    pub shown: Seq<char>,
    pub is_text: bool,
}

impl View for Argument {
    type V = ArgumentView;

    open spec fn view(&self) -> ArgumentView {
        ArgumentView { shown: self.shown@, is_text: self.is_text }
    }
}

/// The views of several arguments.
pub open spec fn arguments_view(arguments: Seq<Argument>) -> Seq<ArgumentView> {
    arguments.map_values(|argument: Argument| argument@)
}

/// What the helper is asked: the places of the two directories on the command
/// line, and the process that asks.
#[derive(Clone, Copy)]
pub struct Arguments {
    pub install_dir: usize,
    pub staged_dir: usize,
    pub parent_pid: u32,
}

/// Why a command line is refused.
pub enum ArgumentError {
    /// The last argument has no value.
    MissingValue { argument: String },
    /// The process is not given as text.
    ParentNotText,
    /// The process is not given as a number.
    ParentNotNumber,
    /// An argument is not known, or was given before.
    Unexpected { argument: String },
    InstallDirMissing,
    StagedDirMissing,
    ParentMissing,
}

pub ghost enum ArgumentErrorView {
    MissingValue { argument: Seq<char> },
    ParentNotText,
    ParentNotNumber,
    Unexpected { argument: Seq<char> },
    InstallDirMissing,
    StagedDirMissing,
    ParentMissing,
}

impl View for ArgumentError {
    type V = ArgumentErrorView;

    open spec fn view(&self) -> ArgumentErrorView {
        match *self {
            ArgumentError::MissingValue { argument } => ArgumentErrorView::MissingValue {
                argument: argument@,
            },
            ArgumentError::ParentNotText => ArgumentErrorView::ParentNotText,
            ArgumentError::ParentNotNumber => ArgumentErrorView::ParentNotNumber,
            ArgumentError::Unexpected { argument } => ArgumentErrorView::Unexpected {
                argument: argument@,
            },
            ArgumentError::InstallDirMissing => ArgumentErrorView::InstallDirMissing,
            ArgumentError::StagedDirMissing => ArgumentErrorView::StagedDirMissing,
            ArgumentError::ParentMissing => ArgumentErrorView::ParentMissing,
        }
    }
}

impl ArgumentErrorView {
    /// How the refusal is worded.
    pub open spec fn worded(self) -> Seq<char> {
        match self {
            ArgumentErrorView::MissingValue { argument } => argument + " requires a value"@,
            ArgumentErrorView::ParentNotText => "--parent-pid is not UTF-8"@,
            ArgumentErrorView::ParentNotNumber => "--parent-pid is not a process id"@,
            ArgumentErrorView::Unexpected { argument } => "unknown or repeated argument "@
                + argument,
            ArgumentErrorView::InstallDirMissing => "--install-dir is required"@,
            ArgumentErrorView::StagedDirMissing => "--staged-dir is required"@,
            ArgumentErrorView::ParentMissing => "--parent-pid is required"@,
        }
    }
}

impl ArgumentError {
    /// How the refusal is worded.
    pub fn message(&self) -> (message: String)
        ensures
            message@ == self@.worded(),
    {
        match self {
            ArgumentError::MissingValue { argument } => text::prefixed(
                argument.as_str(),
                " requires a value",
            ),
            ArgumentError::ParentNotText => text::owned("--parent-pid is not UTF-8"),
            ArgumentError::ParentNotNumber => text::owned("--parent-pid is not a process id"),
            ArgumentError::Unexpected { argument } => text::prefixed(
                "unknown or repeated argument ",
                argument.as_str(),
            ),
            ArgumentError::InstallDirMissing => text::owned("--install-dir is required"),
            ArgumentError::StagedDirMissing => text::owned("--staged-dir is required"),
            ArgumentError::ParentMissing => text::owned("--parent-pid is required"),
        }
    }
}

/// What has been read of a command line.
pub struct Given {
    pub install_dir: Option<usize>,
    pub staged_dir: Option<usize>,
    pub parent_pid: Option<u32>,
}

impl Given {
    /// What is known after one more argument, whose value stands at `at`.
    pub open spec fn with(
        self,
        argument: ArgumentView,
        value: ArgumentView,
        at: usize,
    ) -> Result<Given, ArgumentErrorView> {
        if argument.is_text && argument.shown == "--install-dir"@ && self.install_dir is None {
            Ok(Given { install_dir: Some(at), ..self })
        } else if argument.is_text && argument.shown == "--staged-dir"@ && self.staged_dir is None {
            Ok(Given { staged_dir: Some(at), ..self })
        } else if argument.is_text && argument.shown == "--parent-pid"@ && self.parent_pid is None {
            if !value.is_text {
                Err(ArgumentErrorView::ParentNotText)
            } else {
                match text::number_within(value.shown, u32::MAX as nat) {
                    Some(number) => Ok(Given { parent_pid: Some(number as u32), ..self }),
                    None => Err(ArgumentErrorView::ParentNotNumber),
                }
            }
        } else {
            Err(ArgumentErrorView::Unexpected { argument: argument.shown })
        }
    }

    /// What a command line gives from its argument `at` on.
    pub open spec fn through(self, arguments: Seq<ArgumentView>, at: int) -> Result<
        Given,
        ArgumentErrorView,
    >
        decreases arguments.len() - at,
    {
        if at >= arguments.len() {
            Ok(self)
        } else if at + 1 >= arguments.len() {
            Err(ArgumentErrorView::MissingValue { argument: arguments[at].shown })
        } else {
            match self.with(arguments[at], arguments[at + 1], (at + 1) as usize) {
                Ok(given) => given.through(arguments, at + 2),
                Err(error) => Err(error),
            }
        }
    }

    /// The request, once everything that it needs is given.
    pub open spec fn complete(self) -> Result<Arguments, ArgumentErrorView> {
        match self.install_dir {
            None => Err(ArgumentErrorView::InstallDirMissing),
            Some(install_dir) => match self.staged_dir {
                None => Err(ArgumentErrorView::StagedDirMissing),
                Some(staged_dir) => match self.parent_pid {
                    None => Err(ArgumentErrorView::ParentMissing),
                    Some(parent_pid) => Ok(Arguments { install_dir, staged_dir, parent_pid }),
                },
            },
        }
    }
}

/// The request that a command line makes.
pub open spec fn requested(arguments: Seq<ArgumentView>) -> Result<Arguments, ArgumentErrorView> {
    match (Given { install_dir: None, staged_dir: None, parent_pid: None }).through(arguments, 0) {
        Ok(given) => given.complete(),
        Err(error) => Err(error),
    }
}

impl Arguments {
    /// Reads the command line: three named values, each once, in any order.
    pub fn parse(arguments: &Vec<Argument>) -> (result: Result<Arguments, ArgumentError>)
        ensures
            match result {
                Ok(request) => requested(arguments_view(arguments@)) == Ok::<
                    Arguments,
                    ArgumentErrorView,
                >(request),
                Err(error) => requested(arguments_view(arguments@)) == Err::<
                    Arguments,
                    ArgumentErrorView,
                >(error@),
            },
    {
        let mut given = Given { install_dir: None, staged_dir: None, parent_pid: None };
        let ghost all = arguments_view(arguments@);
        let ghost start = given;
        let count: usize = arguments.len();
        let mut at: usize = 0;
        while at < count
            invariant
                at <= count,
                count == arguments@.len(),
                all == arguments_view(arguments@),
                start == (Given { install_dir: None, staged_dir: None, parent_pid: None }),
                start.through(all, 0) == given.through(all, at as int),
            decreases count - at,
        {
            let argument = &arguments[at];
            assert(all[at as int] == argument@);
            if count - at < 2 {
                return Err(ArgumentError::MissingValue { argument: argument.shown.clone() });
            }
            let value = &arguments[at + 1];
            assert(all[at + 1] == value@);
            let named = argument.is_text;
            if named && text::same(argument.shown.as_str(), "--install-dir")
                && given.install_dir.is_none() {
                given.install_dir = Some(at + 1);
            } else if named && text::same(argument.shown.as_str(), "--staged-dir")
                && given.staged_dir.is_none() {
                given.staged_dir = Some(at + 1);
            } else if named && text::same(argument.shown.as_str(), "--parent-pid")
                && given.parent_pid.is_none() {
                if !value.is_text {
                    return Err(ArgumentError::ParentNotText);
                }
                match text::parse_number(value.shown.as_str(), u32::MAX) {
                    Some(number) => {
                        given.parent_pid = Some(number);
                    },
                    None => {
                        return Err(ArgumentError::ParentNotNumber);
                    },
                }
            } else {
                return Err(ArgumentError::Unexpected { argument: argument.shown.clone() });
            }
            at += 2;
        }
        match given.install_dir {
            None => Err(ArgumentError::InstallDirMissing),
            Some(install_dir) => match given.staged_dir {
                None => Err(ArgumentError::StagedDirMissing),
                Some(staged_dir) => match given.parent_pid {
                    None => Err(ArgumentError::ParentMissing),
                    Some(parent_pid) => Ok(Arguments { install_dir, staged_dir, parent_pid }),
                },
            },
        }
    }
}

spec fn named(given: Given) -> int {
    (if given.install_dir is Some {
        1int
    } else {
        0
    }) + (if given.staged_dir is Some {
        1int
    } else {
        0
    }) + (if given.parent_pid is Some {
        1int
    } else {
        0
    })
}

proof fn lemma_each_pair_names_one(given: Given, arguments: Seq<ArgumentView>, at: int)
    requires
        0 <= at <= arguments.len(),
        given.through(arguments, at) is Ok,
    ensures
        ({
            let all = given.through(arguments, at)->Ok_0;
            arguments.len() - at == 2 * (named(all) - named(given))
        }),
    decreases arguments.len() - at,
{
    if at < arguments.len() {
        let next = given.with(arguments[at], arguments[at + 1], (at + 1) as usize);
        assert(next is Ok);
        assert(named(next->Ok_0) == named(given) + 1);
        lemma_each_pair_names_one(next->Ok_0, arguments, at + 2);
    }
}

/// A command line that is accepted gives each of the three values exactly
/// once, and nothing besides.
pub proof fn every_value_is_given_once(arguments: Seq<ArgumentView>)
    requires
        requested(arguments) is Ok,
    ensures
        arguments.len() == 6,
{
    let start = Given { install_dir: None, staged_dir: None, parent_pid: None };
    lemma_each_pair_names_one(start, arguments, 0);
}

// ── Whether it may ─────────────────────────────────────────────────────────

/// What stands at a path, links not followed.
pub enum Entry {
    Directory,
    File { mode: u32 },
    Other,
    /// It could not be looked at.
    Failed { error: String },
}

/// The mode bits that let somebody run a file.
pub const EXECUTE_BITS: u32 = 0o111;

/// The file that marks an install as one that the helper may replace.
pub const MANAGED_MARKER: &'static str = "share/waku/self-update-v1";

/// What that file holds.
pub const MANAGED_MARKER_CONTENTS: &'static str = "waku-self-update-v1\n";

/// What was found of an install.
pub struct Layout {
    pub prefix: Entry,
    pub marker: Entry,
    /// What the marker holds, where it can be read as text.
    pub marker_contents: Option<String>,
    pub application: Entry,
    pub daemon: Entry,
    pub helper: Entry,
}

/// Whether an entry is a file that can be run.
pub open spec fn runnable(entry: Entry) -> bool {
    match entry {
        Entry::File { mode } => mode & EXECUTE_BITS != 0,
        _ => false,
    }
}

/// What is wrong with an executable of an install.
pub open spec fn executable_problem(entry: Entry, name: Seq<char>) -> Option<Seq<char>> {
    match entry {
        Entry::Failed { error } => Some(error@),
        _ => if runnable(entry) {
            None
        } else {
            Some("the install is missing executable bin/"@ + name)
        },
    }
}

impl Layout {
    /// Whether the marker is a file that holds what it should.
    pub open spec fn marked(self) -> bool {
        self.marker is File && text::text_view(self.marker_contents) == Some(
            MANAGED_MARKER_CONTENTS@,
        )
    }

    /// What is wrong with an install.
    pub open spec fn problem(self) -> Option<Seq<char>> {
        match self.prefix {
            Entry::Failed { error } => Some(error@),
            Entry::Directory => match self.marker {
                Entry::Failed { error } => Some(error@),
                _ => if !self.marked() {
                    Some("the install is not marked as a Kerenzikov-managed tarball"@)
                } else {
                    match executable_problem(self.application, "waku"@) {
                        Some(problem) => Some(problem),
                        None => match executable_problem(self.daemon, "waku-daemon"@) {
                            Some(problem) => Some(problem),
                            None => executable_problem(self.helper, "waku-updater"@),
                        },
                    }
                },
            },
            _ => Some("the Kerenzikov prefix is not a real directory"@),
        }
    }
}

fn check_executable(entry: &Entry, name: &str) -> (problem: Option<String>)
    ensures
        text::text_view(problem) == executable_problem(*entry, name@),
{
    match entry {
        Entry::Failed { error } => Some(error.clone()),
        Entry::File { mode } => if *mode & EXECUTE_BITS != 0 {
            None
        } else {
            Some(text::prefixed("the install is missing executable bin/", name))
        },
        _ => Some(text::prefixed("the install is missing executable bin/", name)),
    }
}

/// What is wrong with an install: it has to be a real directory, carry the
/// marker and hold the three executables.
pub fn validate_packaged_layout(layout: &Layout) -> (problem: Option<String>)
    ensures
        text::text_view(problem) == layout.problem(),
{
    match &layout.prefix {
        Entry::Failed { error } => {
            return Some(error.clone());
        },
        Entry::Directory => {},
        _ => {
            return Some(text::owned("the Kerenzikov prefix is not a real directory"));
        },
    }
    let is_file: bool = match &layout.marker {
        Entry::Failed { error } => {
            return Some(error.clone());
        },
        Entry::File { .. } => true,
        _ => false,
    };
    let told: bool = match &layout.marker_contents {
        Some(contents) => text::same(contents.as_str(), MANAGED_MARKER_CONTENTS),
        None => false,
    };
    if !is_file || !told {
        return Some(text::owned("the install is not marked as a Kerenzikov-managed tarball"));
    }
    match check_executable(&layout.application, "waku") {
        Some(problem) => Some(problem),
        None => match check_executable(&layout.daemon, "waku-daemon") {
            Some(problem) => Some(problem),
            None => check_executable(&layout.helper, "waku-updater"),
        },
    }
}

/// A directory that was looked up and resolved.
pub enum Lookup {
    Found,
    Missing,
    Failed { error: String },
}

/// What was found before an update.
pub struct Surroundings {
    /// The user on whose behalf the helper runs.
    pub effective_user: u32,
    /// The process that the command line names, and the one that started the
    /// helper.
    pub declared_parent: u32,
    pub actual_parent: u32,
    /// Why the two installs could not be resolved.
    pub install_error: Option<String>,
    pub staged_error: Option<String>,
    /// The directory that holds the install, and the user's own.
    pub parent: Lookup,
    pub home: Lookup,
    /// Whether the install is inside the user's own directory.
    pub under_home: bool,
    /// Whether the staged install is in the directory that holds the install.
    pub beside: bool,
    /// The names of the two, where they are text.
    pub install_name: Option<String>,
    pub staged_name: Option<String>,
    pub install_layout: Layout,
    pub staged_layout: Layout,
    /// Why the running helper, or the one of the install, could not be
    /// resolved.
    pub running_error: Option<String>,
    pub expected_error: Option<String>,
    /// Whether they are one file.
    pub same_helper: bool,
}

/// What the name of a staged install starts with.
pub open spec fn staging_prefix(prefix_name: Seq<char>) -> Seq<char> {
    "."@ + prefix_name + ".update-"@
}

/// Whether a staged install belongs to an install.
pub open spec fn belongs(staged_name: Option<Seq<char>>, prefix_name: Seq<char>) -> bool {
    match staged_name {
        Some(name) => text::occurs_at(name, staging_prefix(prefix_name), 0),
        None => false,
    }
}

/// A failure and what was being done.
pub open spec fn because(doing: Seq<char>, error: Seq<char>) -> Seq<char> {
    doing + ": "@ + error
}

/// Words a failure and what was being done.
pub fn because_of(doing: &str, error: &str) -> (message: String)
    ensures
        message@ == because(doing@, error@),
{
    let start = text::prefixed(doing, ": ");
    text::prefixed(start.as_str(), error)
}

impl Surroundings {
    /// Why the session may not update.
    pub open spec fn session_refusal(self) -> Option<Seq<char>> {
        if self.effective_user == 0 {
            Some("refusing to self-update from a root desktop session"@)
        } else if self.declared_parent != self.actual_parent {
            Some("the update helper was not launched directly by Kerenzikov"@)
        } else {
            None
        }
    }

    /// Why the directories are not where they have to be.
    pub open spec fn place_refusal(self) -> Option<Seq<char>> {
        if self.install_error is Some {
            Some(because("could not resolve the current install"@, self.install_error->0@))
        } else if self.staged_error is Some {
            Some(because("could not resolve the staged install"@, self.staged_error->0@))
        } else if self.parent is Missing {
            Some("the install has no parent directory"@)
        } else if self.parent is Failed {
            Some(self.parent->error@)
        } else if self.home is Missing {
            Some("the user's home directory is unavailable"@)
        } else if self.home is Failed {
            Some(self.home->error@)
        } else if !self.under_home {
            Some("the install is outside the user's home directory"@)
        } else if !self.beside {
            Some("the staged install is not beside the current install"@)
        } else if self.install_name is None {
            Some("the install directory has no UTF-8 name"@)
        } else if !belongs(text::text_view(self.staged_name), self.install_name->0@) {
            Some("the staged install name does not belong to this Kerenzikov prefix"@)
        } else {
            None
        }
    }

    /// Why the installs or the helper are not what they have to be.
    pub open spec fn content_refusal(self) -> Option<Seq<char>> {
        if self.install_layout.problem() is Some {
            self.install_layout.problem()
        } else if self.staged_layout.problem() is Some {
            self.staged_layout.problem()
        } else if self.running_error is Some {
            Some(self.running_error->0@)
        } else if self.expected_error is Some {
            Some(self.expected_error->0@)
        } else if !self.same_helper {
            Some("the helper is not running from the install it was asked to replace"@)
        } else {
            None
        }
    }

    /// Why nothing may be replaced.
    pub open spec fn refusal(self) -> Option<Seq<char>> {
        if self.session_refusal() is Some {
            self.session_refusal()
        } else if self.place_refusal() is Some {
            self.place_refusal()
        } else {
            self.content_refusal()
        }
    }
}

fn check_session(found: &Surroundings) -> (refusal: Option<String>)
    ensures
        text::text_view(refusal) == found.session_refusal(),
{
    if found.effective_user == 0 {
        Some(text::owned("refusing to self-update from a root desktop session"))
    } else if found.declared_parent != found.actual_parent {
        Some(text::owned("the update helper was not launched directly by Kerenzikov"))
    } else {
        None
    }
}

/// The name that a staged install has to start with.
pub fn staging_name_prefix(prefix_name: &str) -> (prefix: String)
    ensures
        prefix@ == staging_prefix(prefix_name@),
{
    let start = text::prefixed(".", prefix_name);
    text::prefixed(start.as_str(), ".update-")
}

fn starts_with(text: &str, prefix: &str) -> (found: bool)
    ensures
        found == text::occurs_at(text@, prefix@, 0),
{
    let chars = text::chars_of(text);
    let start = text::chars_of(prefix);
    let count: usize = start.len();
    if chars.len() < count {
        return false;
    }
    let mut i: usize = 0;
    while i < count
        invariant
            i <= count,
            count == start@.len(),
            count <= chars@.len(),
            chars@ == text@,
            start@ == prefix@,
            forall|k: int| 0 <= k < i ==> chars@[k] == start@[k],
        decreases count - i,
    {
        if chars[i] != start[i] {
            assert(text@.subrange(0, count as int)[i as int] != prefix@[i as int]);
            return false;
        }
        i += 1;
    }
    assert(text@.subrange(0, count as int) =~= prefix@);
    true
}

fn check_places(found: &Surroundings) -> (refusal: Option<String>)
    ensures
        text::text_view(refusal) == found.place_refusal(),
{
    if let Some(error) = &found.install_error {
        return Some(because_of("could not resolve the current install", error.as_str()));
    }
    if let Some(error) = &found.staged_error {
        return Some(because_of("could not resolve the staged install", error.as_str()));
    }
    match &found.parent {
        Lookup::Found => {},
        Lookup::Missing => {
            return Some(text::owned("the install has no parent directory"));
        },
        Lookup::Failed { error } => {
            return Some(error.clone());
        },
    }
    match &found.home {
        Lookup::Found => {},
        Lookup::Missing => {
            return Some(text::owned("the user's home directory is unavailable"));
        },
        Lookup::Failed { error } => {
            return Some(error.clone());
        },
    }
    if !found.under_home {
        return Some(text::owned("the install is outside the user's home directory"));
    }
    if !found.beside {
        return Some(text::owned("the staged install is not beside the current install"));
    }
    let owned_by_prefix: bool = match &found.install_name {
        None => {
            return Some(text::owned("the install directory has no UTF-8 name"));
        },
        Some(install_name) => match &found.staged_name {
            None => false,
            Some(staged_name) => starts_with(
                staged_name.as_str(),
                staging_name_prefix(install_name.as_str()).as_str(),
            ),
        },
    };
    if owned_by_prefix {
        None
    } else {
        Some(
            text::owned("the staged install name does not belong to this Kerenzikov prefix"),
        )
    }
}

fn check_contents(found: &Surroundings) -> (refusal: Option<String>)
    ensures
        text::text_view(refusal) == found.content_refusal(),
{
    if let Some(problem) = validate_packaged_layout(&found.install_layout) {
        return Some(problem);
    }
    if let Some(problem) = validate_packaged_layout(&found.staged_layout) {
        return Some(problem);
    }
    if let Some(error) = &found.running_error {
        return Some(error.clone());
    }
    if let Some(error) = &found.expected_error {
        return Some(error.clone());
    }
    if found.same_helper {
        None
    } else {
        Some(
            text::owned("the helper is not running from the install it was asked to replace"),
        )
    }
}

/// An update that may be carried out.
pub struct Handoff {
    /// The name of the install.
    pub prefix_name: String,
    /// The process that has to end first.
    pub parent_pid: u32,
}

impl Handoff {
    /// Decides whether an update may be carried out. The first thing that is
    /// wrong is the one that is told.
    pub fn validate(found: &Surroundings) -> (result: Result<Handoff, String>)
        ensures
            match result {
                Ok(handoff) => found.refusal() is None && text::text_view(found.install_name)
                    == Some(handoff.prefix_name@) && handoff.parent_pid == found.declared_parent,
                Err(message) => found.refusal() == Some(message@),
            },
    {
        if let Some(refusal) = check_session(found) {
            return Err(refusal);
        }
        if let Some(refusal) = check_places(found) {
            return Err(refusal);
        }
        if let Some(refusal) = check_contents(found) {
            return Err(refusal);
        }
        let prefix_name: String = match &found.install_name {
            Some(name) => name.clone(),
            None => text::owned(""),
        };
        Ok(Handoff { prefix_name, parent_pid: found.declared_parent })
    }
}

/// Nothing is replaced unless the install and what is staged beside it are
/// both complete and marked, and the staged one is named after the install.
pub proof fn only_complete_installs_are_swapped(found: Surroundings)
    requires
        found.refusal() is None,
    ensures
        found.effective_user != 0,
        found.under_home && found.beside && found.same_helper,
        found.install_name is Some && belongs(
            text::text_view(found.staged_name),
            found.install_name->0@,
        ),
        found.install_layout.marked() && found.staged_layout.marked(),
        runnable(found.install_layout.application) && runnable(found.staged_layout.application),
        runnable(found.install_layout.daemon) && runnable(found.staged_layout.daemon),
        runnable(found.install_layout.helper) && runnable(found.staged_layout.helper),
{
}

// ── Names and records ──────────────────────────────────────────────────────

/// How many names are tried before giving up.
pub const NAME_ATTEMPTS: u32 = 100;

/// What a name that was tried turned out to be.
pub enum NameProbe {
    Free,
    Taken,
    Failed,
}

/// What to do about a name that was tried.
#[derive(Clone, Copy, Debug, PartialEq, Eq, Structural)]
pub enum NameStep {
    Use,
    TryNext,
    /// The failure is reported.
    Fail,
    /// Too many were taken.
    GiveUp,
}

/// What to do about the `attempt`th name, counted from one.
pub fn name_step(attempt: u32, probe: &NameProbe) -> (step: NameStep)
    ensures
        step == (match *probe {
            NameProbe::Free => NameStep::Use,
            NameProbe::Failed => NameStep::Fail,
            NameProbe::Taken => if attempt < NAME_ATTEMPTS {
                NameStep::TryNext
            } else {
                NameStep::GiveUp
            },
        }),
{
    match probe {
        NameProbe::Free => NameStep::Use,
        NameProbe::Failed => NameStep::Fail,
        NameProbe::Taken => if attempt < NAME_ATTEMPTS {
            NameStep::TryNext
        } else {
            NameStep::GiveUp
        },
    }
}

/// How giving up on a name is worded.
pub fn no_name_left(kind: &str) -> (message: String)
    ensures
        message@ == "could not reserve a unique "@ + kind@ + " path"@,
{
    let start = text::prefixed("could not reserve a unique ", kind);
    text::prefixed(start.as_str(), " path")
}

impl Handoff {
    /// A name beside the install, made of what it is for, the process that
    /// makes it and a number that is used once.
    pub fn unique_name(&self, kind: &str, process: u32, nonce: u64) -> (name: String)
        ensures
            name@ == "."@ + self.prefix_name@ + "."@ + kind@ + "-"@ + text::decimal_digits(
                process as nat,
            ) + "-"@ + text::decimal_digits(nonce as nat),
    {
        let name = text::prefixed(".", self.prefix_name.as_str());
        let name = text::prefixed(name.as_str(), ".");
        let name = text::prefixed(name.as_str(), kind);
        let name = text::prefixed(name.as_str(), "-");
        let name = text::prefixed(name.as_str(), text::decimal(process as u64).as_str());
        let name = text::prefixed(name.as_str(), "-");
        text::prefixed(name.as_str(), text::decimal(nonce).as_str())
    }

    /// The name of the file that tells why an update failed.
    pub fn error_name(&self) -> (name: String)
        ensures
            name@ == "."@ + self.prefix_name@ + ".update-error"@,
    {
        let name = text::prefixed(".", self.prefix_name.as_str());
        text::prefixed(name.as_str(), ".update-error")
    }
}

/// How many bytes of a failure are recorded.
pub const MAX_ERROR_LENGTH: usize = 16_384;

/// What is written about a failure: as much as fits, and a line's end.
pub fn error_record(message: &str) -> (record: String)
    ensures
        record@ == text::byte_prefix(message@, MAX_ERROR_LENGTH as nat).push('\n'),
{
    let mut record = text::truncate_bytes(text::owned(message), MAX_ERROR_LENGTH);
    record.push('\n');
    record
}

/// What stands where a failure is to be recorded.
pub enum RecordPlace {
    Directory,
    Other,
    Nothing,
    Unknown,
}

/// What is done there.
#[derive(Clone, Copy, Debug, PartialEq, Eq, Structural)]
pub enum RecordStep {
    Leave,
    Replace,
    Create,
}

/// What is done where a failure is to be recorded: a directory is left alone,
/// and so is what cannot be looked at.
pub fn record_step(place: &RecordPlace) -> (step: RecordStep)
    ensures
        step == (match *place {
            RecordPlace::Directory => RecordStep::Leave,
            RecordPlace::Unknown => RecordStep::Leave,
            RecordPlace::Other => RecordStep::Replace,
            RecordPlace::Nothing => RecordStep::Create,
        }),
{
    match place {
        RecordPlace::Directory => RecordStep::Leave,
        RecordPlace::Unknown => RecordStep::Leave,
        RecordPlace::Other => RecordStep::Replace,
        RecordPlace::Nothing => RecordStep::Create,
    }
}

/// How many characters of a refusal are told.
pub const ONE_LINE_LIMIT: usize = 1_024;

/// A character of a text that has to stay on one line.
pub open spec fn on_one_line(c: char) -> char {
    if c == '\r' || c == '\n' || c == '\t' {
        ' '
    } else {
        c
    }
}

/// A failure on one line: breaks and tabs become spaces, and only its start is
/// told.
pub fn one_line_error(message: &str) -> (line: String)
    ensures
        line@.len() == if message@.len() < ONE_LINE_LIMIT {
            message@.len()
        } else {
            ONE_LINE_LIMIT as nat
        },
        forall|i: int| 0 <= i < line@.len() ==> line@[i] == on_one_line(message@[i]),
{
    let chars = text::chars_of(message);
    let count: usize = chars.len();
    let end: usize = if count < ONE_LINE_LIMIT {
        count
    } else {
        ONE_LINE_LIMIT
    };
    let mut line = text::owned("");
    proof {
        reveal_strlit("");
    }
    let mut i: usize = 0;
    while i < end
        invariant
            i <= end <= count,
            count == chars@.len(),
            chars@ == message@,
            line@.len() == i,
            forall|k: int| 0 <= k < i ==> line@[k] == on_one_line(message@[k]),
        decreases end - i,
    {
        let c: char = chars[i];
        line.push(if c == '\r' || c == '\n' || c == '\t' {
            ' '
        } else {
            c
        });
        i += 1;
    }
    line
}

} // verus!
