//! The sidebar: the list of past sessions, grouped, ordered and folded.
use crate::calendar;
use crate::calendar::{CalendarDate, SessionDateGroup};
use crate::i18n;
use crate::i18n::Catalog;
use crate::model::Id;
use crate::session;
use crate::session::{AgentSession, SessionView};
use crate::paths;
use crate::text;
use crate::transcript;
use std::collections::{HashMap, HashSet};
use vstd::prelude::*;

verus! {

broadcast use vstd::std_specs::hash::group_hash_axioms;

// ── Records ────────────────────────────────────────────────────────────────

/// What the sidebar groups sessions by.
#[derive(Clone, Copy, Debug, PartialEq, Eq, Structural, Hash)]
pub enum SidebarGrouping {
    Project,
    Updated,
}

/// Which sessions come first.
#[derive(Clone, Copy, Debug, PartialEq, Eq, Structural, Hash)]
pub enum SidebarOrdering {
    Newest,
    Oldest,
}

/// A section of the sidebar that can be folded.
#[derive(Clone, Copy, Debug, PartialEq, Eq, Structural, Hash)]
pub enum SidebarGroup {
    Updated(SessionDateGroup),
    Project(Id),
    Projectless,
}

/// One row of the sidebar.
#[derive(Clone, Copy, Debug, PartialEq, Eq, Structural, Hash)]
pub enum SidebarRow {
    /// Opens the command palette and scrolls with history.
    Search,
    /// The header of a section; the first also carries the sidebar's actions.
    Header(SidebarGroup),
    /// A session that has been started.
    Session(Id),
    /// Reveals the next batch of older sessions of a section.
    ShowMore(SidebarGroup),
    /// The space below a section.
    GroupSpacer,
}

/// What the sidebar needs of a session.
#[derive(Clone, Copy, Debug, PartialEq, Eq, Structural, Hash)]
pub struct SidebarEntry {
    pub id: Id,
    pub project_id: Id,
    /// How recent the session is.
    pub timestamp: u64,
}

/// What the sidebar needs of a project.
#[derive(Clone, Copy, Debug, PartialEq, Eq, Structural, Hash)]
pub struct SidebarProject {
    pub id: Id,
    /// Whether it only holds tasks that belong to no project.
    pub projectless: bool,
}

/// How many older sessions of a section have been revealed.
#[derive(Clone, Copy, Debug, PartialEq, Eq, Structural, Hash)]
pub struct Reveal {
    pub group: SidebarGroup,
    pub count: usize,
}

/// A directory that tasks run in.
pub struct Project {
    pub id: Id,
    pub name: String,
    pub path: String,
    pub created_at: u64,
}

/// What the sidebar lists.
pub struct SidebarHistory {
    /// The sessions that have been started, in the order they are kept in.
    pub entries: Vec<SidebarEntry>,
    pub projects: Vec<SidebarProject>,
    pub selected_project: Option<Id>,
}

/// How the user arranged the sidebar. No section stands twice in either list.
pub struct SidebarState {
    pub grouping: SidebarGrouping,
    pub ordering: SidebarOrdering,
    /// The sections that are folded.
    pub collapsed: Vec<SidebarGroup>,
    /// The sections whose older sessions have been revealed.
    pub revealed: Vec<Reveal>,
    /// What the rows on screen were built from.
    pub rows_fingerprint: Option<u64>,
    /// What the branch labels were last looked up for.
    pub branch_scan_fingerprint: Option<u64>,
    /// Which look-up of branch labels is the current one.
    pub branch_scan_generation: u64,
    /// The session whose title is being edited.
    pub rename: Option<Id>,
}

/// How long a session counts as recent in a project's section.
pub const SIDEBAR_PROJECT_RECENT_WINDOW_SECONDS: u64 = 259_200;

/// How many older sessions of a project are revealed at a time.
pub const SIDEBAR_PROJECT_REVEAL_BATCH: usize = 30;

// ── Labels ─────────────────────────────────────────────────────────────────

/// A half byte as a hexadecimal digit.
pub open spec fn hex_digit(value: u128) -> char {
    if value < 10 {
        ('0' as u32 + value) as char
    } else {
        ('a' as u32 + (value - 10)) as char
    }
}

/// The place of the half byte that stands at a place of the text.
pub open spec fn nibble_place(i: int) -> int {
    if i < 8 {
        i
    } else if i < 13 {
        i - 1
    } else if i < 18 {
        i - 2
    } else if i < 23 {
        i - 3
    } else {
        i - 4
    }
}

/// An identity as text: thirty-two hexadecimal digits, the highest first, in
/// groups of eight, four, four, four and twelve.
pub open spec fn id_text(id: Id) -> Seq<char> {
    Seq::new(
        36,
        |i: int|
            if i == 8 || i == 13 || i == 18 || i == 23 {
                '-'
            } else {
                hex_digit((id >> (4 * (31 - nibble_place(i))) as u128) & 0xf)
            },
    )
}

/// `uuid::Uuid::from_u128` and its display: the hyphenated form in lower case.
#[verifier::external_body]
pub(crate) fn format_id(id: Id) -> (shown: String)
    ensures
        shown@ == id_text(id),
{
    uuid::Uuid::from_u128(id).to_string()
}

impl SidebarGroup {
    /// The name that a section's controls are found under.
    pub open spec fn key(self) -> Seq<char> {
        match self {
            SidebarGroup::Updated(group) => "updated-"@ + text::decimal_digits(
                group.place() as nat,
            ),
            SidebarGroup::Project(project_id) => "project-"@ + id_text(project_id),
            SidebarGroup::Projectless => "projectless"@,
        }
    }

    /// The name that a section's controls are found under.
    pub fn element_key(self) -> (key: String)
        ensures
            key@ == self.key(),
    {
        match self {
            SidebarGroup::Updated(group) => {
                let mut key = text::owned("updated-");
                let index = text::decimal(group.index() as u64);
                key.append(index.as_str());
                key
            },
            SidebarGroup::Project(project_id) => {
                let mut key = text::owned("project-");
                let id = format_id(project_id);
                key.append(id.as_str());
                key
            },
            SidebarGroup::Projectless => text::owned("projectless"),
        }
    }

    /// A section mixed into a fingerprint.
    pub open spec fn mixed_into(self, fingerprint: u64) -> u64 {
        match self {
            SidebarGroup::Updated(group) => transcript::mixed(
                fingerprint,
                (group.place() + 1) as u64,
            ),
            SidebarGroup::Project(project_id) => transcript::mixed_all(
                transcript::mixed(fingerprint, 0x100),
                transcript::id_words(project_id),
            ),
            SidebarGroup::Projectless => transcript::mixed(fingerprint, 0x200),
        }
    }

    /// A section mixed into a fingerprint.
    pub fn mix_fingerprint(self, fingerprint: u64) -> (result: u64)
        ensures
            result == self.mixed_into(fingerprint),
    {
        match self {
            SidebarGroup::Updated(group) => transcript::mix(fingerprint, group.index() as u64 + 1),
            SidebarGroup::Project(project_id) => transcript::mix_uuid(
                transcript::mix(fingerprint, 0x100),
                project_id,
            ),
            SidebarGroup::Projectless => transcript::mix(fingerprint, 0x200),
        }
    }
}

/// What a grouping is called.
pub fn sidebar_grouping_label(catalog: &Catalog, grouping: SidebarGrouping) -> (label: String)
    ensures
        label@ == i18n::plain(
            catalog@,
            match grouping {
                SidebarGrouping::Project => "sidebar.grouping_project"@,
                SidebarGrouping::Updated => "sidebar.grouping_updated"@,
            },
        ),
{
    match grouping {
        SidebarGrouping::Project => catalog.text("sidebar.grouping_project"),
        SidebarGrouping::Updated => catalog.text("sidebar.grouping_updated"),
    }
}

/// What an ordering is called.
pub fn sidebar_ordering_label(catalog: &Catalog, ordering: SidebarOrdering) -> (label: String)
    ensures
        label@ == i18n::plain(
            catalog@,
            match ordering {
                SidebarOrdering::Newest => "sidebar.ordering_newest"@,
                SidebarOrdering::Oldest => "sidebar.ordering_oldest"@,
            },
        ),
{
    match ordering {
        SidebarOrdering::Newest => catalog.text("sidebar.ordering_newest"),
        SidebarOrdering::Oldest => catalog.text("sidebar.ordering_oldest"),
    }
}

/// How long ago something was, in one coarse unit.
pub open spec fn time_ago(entries: Seq<(Seq<char>, Seq<char>)>, seconds: u64) -> Seq<char> {
    if seconds < 60 {
        i18n::plain(entries, "sidebar.just_now"@)
    } else if seconds < 3_600 {
        i18n::counted(entries, "sidebar.minutes_ago"@, (seconds / 60) as nat)
    } else if seconds < 86_400 {
        i18n::counted(entries, "sidebar.hours_ago"@, (seconds / 3_600) as nat)
    } else {
        i18n::counted(entries, "sidebar.days_ago"@, (seconds / 86_400) as nat)
    }
}

/// How long ago something was: "just now", then one coarse unit, of which
/// days are the largest.
pub fn format_time_ago(catalog: &Catalog, seconds: u64) -> (label: String)
    ensures
        label@ == time_ago(catalog@, seconds),
{
    if seconds < 60 {
        catalog.text("sidebar.just_now")
    } else if seconds < 3_600 {
        catalog.text_with_count("sidebar.minutes_ago", seconds / 60)
    } else if seconds < 86_400 {
        catalog.text_with_count("sidebar.hours_ago", seconds / 3_600)
    } else {
        catalog.text_with_count("sidebar.days_ago", seconds / 86_400)
    }
}

/// How long ago a session's agent last replied.
pub open spec fn reply_age(
    entries: Seq<(Seq<char>, Seq<char>)>,
    session: SessionView,
    now: u64,
) -> Option<Seq<char>> {
    match session.last_reply_at {
        Some(replied) => Some(
            time_ago(
                entries,
                if now >= replied {
                    (now - replied) as u64
                } else {
                    0
                },
            ),
        ),
        None => None,
    }
}

/// How long ago the agent last replied. A session that has never replied
/// shows nothing.
pub fn session_time_label(catalog: &Catalog, session: &AgentSession, now: u64) -> (label: Option<
    String,
>)
    ensures
        text::text_view(label) == reply_age(catalog@, session@, now),
{
    match session.last_reply_at {
        Some(replied) => Some(format_time_ago(catalog, now.saturating_sub(replied))),
        None => None,
    }
}

// ── What is listed ─────────────────────────────────────────────────────────

/// How recent a session is: its last reply, or else its creation. A change of
/// its title does not count.
pub open spec fn recency(session: SessionView) -> u64 {
    match session.last_reply_at {
        Some(replied) => replied,
        None => session.created_at,
    }
}

/// How recent a session is.
pub fn sidebar_session_timestamp(session: &AgentSession) -> (timestamp: u64)
    ensures
        timestamp == recency(session@),
{
    match session.last_reply_at {
        Some(replied) => replied,
        None => session.created_at,
    }
}

/// What the sidebar needs of a session.
pub open spec fn entry_of(session: SessionView) -> SidebarEntry {
    SidebarEntry { id: session.id, project_id: session.project_id, timestamp: recency(session) }
}

/// What the sidebar needs of a session.
pub fn sidebar_entry(session: &AgentSession) -> (entry: SidebarEntry)
    ensures
        entry == entry_of(session@),
{
    SidebarEntry {
        id: session.id,
        project_id: session.project_id,
        timestamp: sidebar_session_timestamp(session),
    }
}

/// The started ones of the first `n` sessions.
pub open spec fn started_entries(sessions: Seq<SessionView>, n: int) -> Seq<SidebarEntry>
    decreases n,
{
    if n <= 0 {
        Seq::empty()
    } else if sessions[n - 1].started {
        started_entries(sessions, n - 1).push(entry_of(sessions[n - 1]))
    } else {
        started_entries(sessions, n - 1)
    }
}

/// What the sidebar needs of the sessions that have been started.
pub fn sidebar_entries(sessions: &Vec<AgentSession>) -> (entries: Vec<SidebarEntry>)
    ensures
        entries@ == started_entries(
            session::sessions_view(sessions@),
            sessions@.len() as int,
        ),
{
    let ghost views = session::sessions_view(sessions@);
    let mut entries: Vec<SidebarEntry> = Vec::new();
    let mut i: usize = 0;
    while i < sessions.len()
        invariant
            i <= sessions@.len(),
            views == session::sessions_view(sessions@),
            entries@ == started_entries(views, i as int),
        decreases sessions@.len() - i,
    {
        assert(views[i as int] == sessions@[i as int]@);
        if sessions[i].started {
            entries.push(sidebar_entry(&sessions[i]));
        }
        i += 1;
    }
    entries
}

/// Whether a project may only hold tasks that belong to no project: its path
/// lies under the directory kept for them. Where the two paths do not settle
/// it, the platform's rules for paths do.
pub open spec fn may_be_projectless(
    path: Seq<char>,
    projectless_root: Option<Seq<char>>,
    projectless: bool,
) -> bool {
    match projectless_root {
        Some(root) => {
            &&& paths::surely_under(path, root) ==> projectless
            &&& paths::surely_outside(path, root) ==> !projectless
        },
        None => !projectless,
    }
}

/// Whether a project only holds tasks that belong to no project: its path
/// lies under the directory kept for them.
pub fn sidebar_project_is_projectless(project: &Project, projectless_root: &Option<String>) -> (result:
    bool)
    ensures
        may_be_projectless(project.path@, text::text_view(*projectless_root), result),
{
    match projectless_root {
        Some(root) => paths::path_starts_with(project.path.as_str(), root.as_str()),
        None => false,
    }
}

/// What the sidebar needs of the projects.
pub fn sidebar_projects(projects: &Vec<Project>, projectless_root: &Option<String>) -> (listed: Vec<
    SidebarProject,
>)
    ensures
        listed@.len() == projects@.len(),
        forall|i: int|
            0 <= i < listed@.len() ==> (#[trigger] listed@[i]).id == projects@[i].id
                && may_be_projectless(
                projects@[i].path@,
                text::text_view(*projectless_root),
                listed@[i].projectless,
            ),
{
    let mut listed: Vec<SidebarProject> = Vec::new();
    let mut i: usize = 0;
    while i < projects.len()
        invariant
            i <= projects@.len(),
            listed@.len() == i,
            forall|k: int|
                0 <= k < i ==> (#[trigger] listed@[k]).id == projects@[k].id
                    && may_be_projectless(
                    projects@[k].path@,
                    text::text_view(*projectless_root),
                    listed@[k].projectless,
                ),
        decreases projects@.len() - i,
    {
        let project = &projects[i];
        listed.push(
            SidebarProject {
                id: project.id,
                projectless: sidebar_project_is_projectless(project, projectless_root),
            },
        );
        i += 1;
    }
    listed
}

// ── Ordering ───────────────────────────────────────────────────────────────

/// Whether one session may stand above another.
pub open spec fn may_precede(
    above: SidebarEntry,
    below: SidebarEntry,
    ordering: SidebarOrdering,
) -> bool {
    match ordering {
        SidebarOrdering::Newest => above.timestamp >= below.timestamp,
        SidebarOrdering::Oldest => above.timestamp <= below.timestamp,
    }
}

/// A session put below the last one that may stand above it.
pub open spec fn inserted(
    sorted: Seq<SidebarEntry>,
    entry: SidebarEntry,
    ordering: SidebarOrdering,
) -> Seq<SidebarEntry>
    decreases sorted.len(),
{
    if sorted.len() == 0 || may_precede(sorted.last(), entry, ordering) {
        sorted.push(entry)
    } else {
        inserted(sorted.drop_last(), entry, ordering).push(sorted.last())
    }
}

/// The sessions in order; those that are equally recent keep their order.
pub open spec fn ordered(entries: Seq<SidebarEntry>, ordering: SidebarOrdering) -> Seq<SidebarEntry>
    decreases entries.len(),
{
    if entries.len() == 0 {
        Seq::empty()
    } else {
        inserted(ordered(entries.drop_last(), ordering), entries.last(), ordering)
    }
}

proof fn lemma_inserted_at(
    sorted: Seq<SidebarEntry>,
    entry: SidebarEntry,
    ordering: SidebarOrdering,
    at: int,
)
    requires
        0 <= at <= sorted.len(),
        at > 0 ==> may_precede(sorted[at - 1], entry, ordering),
        forall|k: int| at <= k < sorted.len() ==> !may_precede(#[trigger] sorted[k], entry, ordering),
    ensures
        inserted(sorted, entry, ordering) == sorted.insert(at, entry),
    decreases sorted.len(),
{
    if at < sorted.len() {
        let shorter = sorted.drop_last();
        assert forall|k: int| at <= k < shorter.len() implies !may_precede(
            #[trigger] shorter[k],
            entry,
            ordering,
        ) by {
            assert(shorter[k] == sorted[k]);
        }
        lemma_inserted_at(shorter, entry, ordering, at);
        assert(shorter.insert(at, entry).push(sorted.last()) =~= sorted.insert(at, entry));
    } else {
        assert(sorted.insert(at, entry) =~= sorted.push(entry));
    }
}

fn stands_above(above: &SidebarEntry, below: &SidebarEntry, ordering: SidebarOrdering) -> (result:
    bool)
    ensures
        result == may_precede(*above, *below, ordering),
{
    match ordering {
        SidebarOrdering::Newest => above.timestamp >= below.timestamp,
        SidebarOrdering::Oldest => above.timestamp <= below.timestamp,
    }
}

/// Put the sessions in order; those that are equally recent keep their order.
pub fn sort_sidebar_sessions(entries: &Vec<SidebarEntry>, ordering: SidebarOrdering) -> (sorted: Vec<
    SidebarEntry,
>)
    ensures
        sorted@ == ordered(entries@, ordering),
{
    let mut sorted: Vec<SidebarEntry> = Vec::new();
    let mut i: usize = 0;
    assert(entries@.take(0) =~= Seq::<SidebarEntry>::empty());
    while i < entries.len()
        invariant
            i <= entries@.len(),
            sorted@ == ordered(entries@.take(i as int), ordering),
        decreases entries@.len() - i,
    {
        let entry = entries[i];
        let mut at: usize = sorted.len();
        while at > 0 && !stands_above(&sorted[at - 1], &entry, ordering)
            invariant
                at <= sorted@.len(),
                forall|k: int|
                    at <= k < sorted@.len() ==> !may_precede(
                        #[trigger] sorted@[k],
                        entry,
                        ordering,
                    ),
            decreases at,
        {
            at -= 1;
        }
        proof {
            lemma_inserted_at(sorted@, entry, ordering, at as int);
            assert(entries@.take(i + 1).drop_last() =~= entries@.take(i as int));
        }
        sorted.insert(at, entry);
        i += 1;
    }
    assert(entries@.take(i as int) =~= entries@);
    sorted
}

proof fn lemma_inserted(
    sorted: Seq<SidebarEntry>,
    entry: SidebarEntry,
    ordering: SidebarOrdering,
)
    requires
        forall|i: int, j: int|
            0 <= i < j < sorted.len() ==> may_precede(
                #[trigger] sorted[i],
                #[trigger] sorted[j],
                ordering,
            ),
    ensures
        ({
            let result = inserted(sorted, entry, ordering);
            &&& result.len() == sorted.len() + 1
            &&& forall|i: int, j: int|
                0 <= i < j < result.len() ==> may_precede(
                    #[trigger] result[i],
                    #[trigger] result[j],
                    ordering,
                )
            &&& result.to_multiset() == sorted.to_multiset().insert(entry)
            &&& forall|i: int|
                0 <= i < result.len() ==> (#[trigger] result[i]) == entry || sorted.contains(
                    result[i],
                )
        }),
    decreases sorted.len(),
{
    broadcast use vstd::seq_lib::group_to_multiset_ensures;

    let result = inserted(sorted, entry, ordering);
    if sorted.len() == 0 || may_precede(sorted.last(), entry, ordering) {
        assert forall|i: int, j: int| 0 <= i < j < result.len() implies may_precede(
            #[trigger] result[i],
            #[trigger] result[j],
            ordering,
        ) by {
            assert(result[i] == sorted[i]);
            if j < sorted.len() {
                assert(result[j] == sorted[j]);
            } else if i < sorted.len() - 1 {
                assert(may_precede(sorted[i], sorted[sorted.len() - 1], ordering));
            }
        }
        assert forall|i: int| 0 <= i < result.len() implies (#[trigger] result[i]) == entry
            || sorted.contains(result[i]) by {
            if i < sorted.len() {
                assert(result[i] == sorted[i]);
            }
        }
    } else {
        let shorter = sorted.drop_last();
        assert forall|i: int, j: int| 0 <= i < j < shorter.len() implies may_precede(
            #[trigger] shorter[i],
            #[trigger] shorter[j],
            ordering,
        ) by {
            assert(shorter[i] == sorted[i] && shorter[j] == sorted[j]);
        }
        lemma_inserted(shorter, entry, ordering);
        let rest = inserted(shorter, entry, ordering);
        assert(sorted =~= shorter.push(sorted.last()));
        assert(result.to_multiset() =~= sorted.to_multiset().insert(entry));
        assert forall|i: int| 0 <= i < result.len() implies (#[trigger] result[i]) == entry
            || sorted.contains(result[i]) by {
            if i < rest.len() {
                assert(result[i] == rest[i]);
                if rest[i] != entry {
                    let k = choose|k: int| 0 <= k < shorter.len() && shorter[k] == rest[i];
                    assert(sorted[k] == rest[i]);
                }
            } else {
                assert(sorted[sorted.len() - 1] == result[i]);
            }
        }
        assert forall|i: int, j: int| 0 <= i < j < result.len() implies may_precede(
            #[trigger] result[i],
            #[trigger] result[j],
            ordering,
        ) by {
            assert(result[i] == rest[i]);
            if j < rest.len() {
                assert(result[j] == rest[j]);
            } else if rest[i] != entry {
                let k = choose|k: int| 0 <= k < shorter.len() && shorter[k] == rest[i];
                assert(sorted[k] == rest[i]);
                assert(may_precede(sorted[k], sorted[sorted.len() - 1], ordering));
            }
        }
    }
}

/// The entries that are as recent as this.
pub open spec fn as_recent(entries: Seq<SidebarEntry>, timestamp: u64) -> Seq<SidebarEntry> {
    entries.filter(|entry: SidebarEntry| entry.timestamp == timestamp)
}

proof fn lemma_as_recent_push(entries: Seq<SidebarEntry>, entry: SidebarEntry, timestamp: u64)
    ensures
        as_recent(entries.push(entry), timestamp) == (if entry.timestamp == timestamp {
            as_recent(entries, timestamp).push(entry)
        } else {
            as_recent(entries, timestamp)
        }),
{
    reveal(Seq::filter);
    assert(entries.push(entry).drop_last() =~= entries);
}

proof fn lemma_inserted_keeps_ties(
    sorted: Seq<SidebarEntry>,
    entry: SidebarEntry,
    ordering: SidebarOrdering,
    timestamp: u64,
)
    ensures
        as_recent(inserted(sorted, entry, ordering), timestamp) == as_recent(
            sorted.push(entry),
            timestamp,
        ),
    decreases sorted.len(),
{
    if !(sorted.len() == 0 || may_precede(sorted.last(), entry, ordering)) {
        let shorter = sorted.drop_last();
        let rest = inserted(shorter, entry, ordering);
        lemma_inserted_keeps_ties(shorter, entry, ordering, timestamp);
        assert(sorted =~= shorter.push(sorted.last()));
        lemma_as_recent_push(shorter, entry, timestamp);
        lemma_as_recent_push(shorter, sorted.last(), timestamp);
        lemma_as_recent_push(sorted, entry, timestamp);
        lemma_as_recent_push(rest, sorted.last(), timestamp);
    }
}

/// The sidebar's order keeps every session, puts no session above one that
/// must come first, and leaves those that are equally recent in their order.
pub proof fn ordering_keeps_every_session(entries: Seq<SidebarEntry>, ordering: SidebarOrdering)
    ensures
        ordered(entries, ordering).to_multiset() == entries.to_multiset(),
        forall|i: int, j: int|
            0 <= i < j < ordered(entries, ordering).len() ==> may_precede(
                #[trigger] ordered(entries, ordering)[i],
                #[trigger] ordered(entries, ordering)[j],
                ordering,
            ),
        forall|timestamp: u64| #[trigger]
            as_recent(ordered(entries, ordering), timestamp) == as_recent(entries, timestamp),
    decreases entries.len(),
{
    broadcast use vstd::seq_lib::group_to_multiset_ensures;

    if entries.len() > 0 {
        let shorter = entries.drop_last();
        ordering_keeps_every_session(shorter, ordering);
        lemma_inserted(ordered(shorter, ordering), entries.last(), ordering);
        assert(entries =~= shorter.push(entries.last()));
        assert forall|timestamp: u64| #[trigger]
            as_recent(ordered(entries, ordering), timestamp) == as_recent(entries, timestamp) by {
            let sorted = ordered(shorter, ordering);
            lemma_inserted_keeps_ties(sorted, entries.last(), ordering, timestamp);
            lemma_as_recent_push(sorted, entries.last(), timestamp);
            lemma_as_recent_push(shorter, entries.last(), timestamp);
            assert(as_recent(sorted, timestamp) == as_recent(shorter, timestamp));
        }
    } else {
        assert(ordered(entries, ordering) =~= entries);
    }
}

// ── Sections ───────────────────────────────────────────────────────────────

/// A section with its sessions.
pub struct SidebarSection {
    pub group: SidebarGroup,
    pub sessions: Vec<Id>,
}

#[verifier::ext_equal]
pub struct SectionView {
    pub group: SidebarGroup,
    pub sessions: Seq<Id>,
}

impl View for SidebarSection {
    type V = SectionView;

    open spec fn view(&self) -> SectionView {
        SectionView { group: self.group, sessions: self.sessions@ }
    }
}

/// The views of the sections.
pub open spec fn sections_view(sections: Seq<SidebarSection>) -> Seq<SectionView> {
    sections.map_values(|section: SidebarSection| section@)
}

/// Where a section stands, or -1.
pub open spec fn section_at(sections: Seq<SectionView>, group: SidebarGroup) -> int
    decreases sections.len(),
{
    if sections.len() == 0 {
        -1
    } else if sections.last().group == group {
        sections.len() - 1
    } else {
        section_at(sections.drop_last(), group)
    }
}

/// The sections of the first `n` sessions that belong to a project, in the
/// order in which their projects first appear.
pub open spec fn project_sections(entries: Seq<SidebarEntry>, projectless: Set<Id>, n: int) -> Seq<
    SectionView,
>
    decreases n,
{
    if n <= 0 {
        Seq::empty()
    } else {
        let sections = project_sections(entries, projectless, n - 1);
        let entry = entries[n - 1];
        let group = SidebarGroup::Project(entry.project_id);
        let at = section_at(sections, group);
        if projectless.contains(entry.project_id) {
            sections
        } else if at >= 0 {
            sections.update(
                at,
                SectionView { group, sessions: sections[at].sessions.push(entry.id) },
            )
        } else {
            sections.push(SectionView { group, sessions: seq![entry.id] })
        }
    }
}

/// The first `n` sessions that belong to no project.
pub open spec fn projectless_sessions(
    entries: Seq<SidebarEntry>,
    projectless: Set<Id>,
    n: int,
) -> Seq<Id>
    decreases n,
{
    if n <= 0 {
        Seq::empty()
    } else if projectless.contains(entries[n - 1].project_id) {
        projectless_sessions(entries, projectless, n - 1).push(entries[n - 1].id)
    } else {
        projectless_sessions(entries, projectless, n - 1)
    }
}

/// The sessions by project; those that belong to none share the last section.
pub open spec fn by_project(entries: Seq<SidebarEntry>, projectless: Set<Id>) -> Seq<SectionView> {
    let sections = project_sections(entries, projectless, entries.len() as int);
    let loose = projectless_sessions(entries, projectless, entries.len() as int);
    if loose.len() > 0 {
        sections.push(SectionView { group: SidebarGroup::Projectless, sessions: loose })
    } else {
        sections
    }
}

proof fn lemma_section_at(sections: Seq<SectionView>, group: SidebarGroup)
    ensures
        -1 <= section_at(sections, group) < sections.len(),
        section_at(sections, group) >= 0 ==> sections[section_at(sections, group)].group == group,
    decreases sections.len(),
{
    if sections.len() > 0 {
        lemma_section_at(sections.drop_last(), group);
    }
}

fn find_section(sections: &Vec<SidebarSection>, group: SidebarGroup) -> (found: Option<usize>)
    ensures
        match found {
            Some(i) => i < sections@.len() && section_at(sections_view(sections@), group) == i,
            None => section_at(sections_view(sections@), group) < 0,
        },
{
    let ghost views = sections_view(sections@);
    let mut i: usize = sections.len();
    assert(views.take(i as int) =~= views);
    while i > 0
        invariant
            i <= sections@.len(),
            views == sections_view(sections@),
            section_at(views, group) == section_at(views.take(i as int), group),
        decreases i,
    {
        assert(views.take(i as int).last() == sections@[i - 1]@);
        assert(views.take(i as int).drop_last() =~= views.take(i - 1));
        if sections[i - 1].group == group {
            return Some(i - 1);
        }
        i -= 1;
    }
    None
}

/// The sessions by project. Sections stand in the order in which their
/// projects first appear, sessions in the order they came in; sessions that
/// belong to no project share the last section.
pub fn project_sidebar_groups(
    entries: &Vec<SidebarEntry>,
    projectless_project_ids: &HashSet<Id>,
) -> (sections: Vec<SidebarSection>)
    ensures
        sections_view(sections@) == by_project(entries@, projectless_project_ids@),
{
    let mut sections: Vec<SidebarSection> = Vec::new();
    let mut loose: Vec<Id> = Vec::new();
    let mut i: usize = 0;
    assert(sections_view(sections@) =~= Seq::<SectionView>::empty());
    while i < entries.len()
        invariant
            i <= entries@.len(),
            sections_view(sections@) == project_sections(
                entries@,
                projectless_project_ids@,
                i as int,
            ),
            loose@ == projectless_sessions(entries@, projectless_project_ids@, i as int),
        decreases entries@.len() - i,
    {
        let ghost before = sections_view(sections@);
        let entry = entries[i];
        let group = SidebarGroup::Project(entry.project_id);
        if projectless_project_ids.contains(&entry.project_id) {
            loose.push(entry.id);
        } else {
            match find_section(&sections, group) {
                Some(at) => {
                    proof {
                        lemma_section_at(before, group);
                        assert(before[at as int] == sections@[at as int]@);
                    }
                    sections[at].sessions.push(entry.id);
                    assert(sections_view(sections@) =~= before.update(
                        at as int,
                        SectionView {
                            group,
                            sessions: before[at as int].sessions.push(entry.id),
                        },
                    ));
                },
                None => {
                    let mut first: Vec<Id> = Vec::new();
                    first.push(entry.id);
                    assert(first@ =~= seq![entry.id]);
                    sections.push(SidebarSection { group, sessions: first });
                    assert(sections_view(sections@) =~= before.push(
                        SectionView { group, sessions: seq![entry.id] },
                    ));
                },
            }
        }
        i += 1;
    }
    if !loose.is_empty() {
        let ghost before = sections_view(sections@);
        let ghost last = SectionView { group: SidebarGroup::Projectless, sessions: loose@ };
        sections.push(SidebarSection { group: SidebarGroup::Projectless, sessions: loose });
        assert(sections_view(sections@) =~= before.push(last));
    }
    sections
}

/// Whether a session counts as recent.
pub open spec fn recent(timestamps: Map<Id, u64>, session: Id, recent_cutoff: u64) -> bool {
    timestamps.dom().contains(session) && timestamps[session] >= recent_cutoff
}

/// How many of the first `n` sessions are older.
pub open spec fn older_sessions(
    sessions: Seq<Id>,
    timestamps: Map<Id, u64>,
    recent_cutoff: u64,
    n: int,
) -> nat
    decreases n,
{
    if n <= 0 {
        0
    } else if recent(timestamps, sessions[n - 1], recent_cutoff) {
        older_sessions(sessions, timestamps, recent_cutoff, n - 1)
    } else {
        older_sessions(sessions, timestamps, recent_cutoff, n - 1) + 1
    }
}

/// The visible ones of the first `n` sessions: those that are recent, and as
/// many older ones as have been revealed.
pub open spec fn visible_sessions(
    sessions: Seq<Id>,
    timestamps: Map<Id, u64>,
    recent_cutoff: u64,
    revealed: nat,
    n: int,
) -> Seq<Id>
    decreases n,
{
    if n <= 0 {
        Seq::empty()
    } else {
        let above = visible_sessions(sessions, timestamps, recent_cutoff, revealed, n - 1);
        if recent(timestamps, sessions[n - 1], recent_cutoff) || older_sessions(
            sessions,
            timestamps,
            recent_cutoff,
            n - 1,
        ) < revealed {
            above.push(sessions[n - 1])
        } else {
            above
        }
    }
}

/// The sessions of a project that are visible, and whether some are not.
pub fn visible_project_sessions(
    sessions: &Vec<Id>,
    session_timestamps: &HashMap<Id, u64>,
    recent_cutoff: u64,
    revealed_older_sessions: usize,
) -> (visible: (Vec<Id>, bool))
    ensures
        visible.0@ == visible_sessions(
            sessions@,
            session_timestamps@,
            recent_cutoff,
            revealed_older_sessions as nat,
            sessions@.len() as int,
        ),
        visible.1 == (older_sessions(
            sessions@,
            session_timestamps@,
            recent_cutoff,
            sessions@.len() as int,
        ) > revealed_older_sessions),
{
    let mut visible: Vec<Id> = Vec::new();
    let mut older_seen: usize = 0;
    let mut i: usize = 0;
    while i < sessions.len()
        invariant
            i <= sessions@.len(),
            older_seen <= i,
            older_seen == older_sessions(
                sessions@,
                session_timestamps@,
                recent_cutoff,
                i as int,
            ),
            visible@ == visible_sessions(
                sessions@,
                session_timestamps@,
                recent_cutoff,
                revealed_older_sessions as nat,
                i as int,
            ),
        decreases sessions@.len() - i,
    {
        let session_id = sessions[i];
        let is_recent = match session_timestamps.get(&session_id) {
            Some(timestamp) => *timestamp >= recent_cutoff,
            None => false,
        };
        assert(is_recent == recent(session_timestamps@, session_id, recent_cutoff));
        if is_recent || older_seen < revealed_older_sessions {
            visible.push(session_id);
        }
        if !is_recent {
            older_seen = older_seen + 1;
        }
        i += 1;
    }
    (visible, older_seen > revealed_older_sessions)
}

/// Revealing more sessions of a project hides none that was visible.
pub proof fn revealing_hides_nothing(
    sessions: Seq<Id>,
    timestamps: Map<Id, u64>,
    recent_cutoff: u64,
    revealed: nat,
    more: nat,
    n: int,
)
    requires
        revealed <= more,
        0 <= n <= sessions.len(),
    ensures
        forall|i: int|
            0 <= i < visible_sessions(sessions, timestamps, recent_cutoff, revealed, n).len()
                ==> visible_sessions(sessions, timestamps, recent_cutoff, more, n).contains(
                #[trigger] visible_sessions(sessions, timestamps, recent_cutoff, revealed, n)[i],
            ),
    decreases n,
{
    if n > 0 {
        revealing_hides_nothing(sessions, timestamps, recent_cutoff, revealed, more, n - 1);
        let few = visible_sessions(sessions, timestamps, recent_cutoff, revealed, n);
        let many = visible_sessions(sessions, timestamps, recent_cutoff, more, n);
        let few_above = visible_sessions(sessions, timestamps, recent_cutoff, revealed, n - 1);
        let many_above = visible_sessions(sessions, timestamps, recent_cutoff, more, n - 1);
        assert forall|i: int| 0 <= i < few.len() implies many.contains(#[trigger] few[i]) by {
            if i < few_above.len() {
                assert(few[i] == few_above[i]);
                assert(many_above.contains(few_above[i]));
                let k = choose|k: int|
                    0 <= k < many_above.len() && many_above[k] == few_above[i];
                assert(many[k] == few[i]);
            } else {
                assert(many[many.len() - 1] == few[i]);
            }
        }
    }
}

proof fn lemma_visible_counts(
    sessions: Seq<Id>,
    timestamps: Map<Id, u64>,
    recent_cutoff: u64,
    revealed: nat,
    n: int,
)
    requires
        0 <= n <= sessions.len(),
    ensures
        ({
            let older = older_sessions(sessions, timestamps, recent_cutoff, n);
            let visible = visible_sessions(sessions, timestamps, recent_cutoff, revealed, n);
            &&& visible.len() == n - (if older > revealed {
                older - revealed
            } else {
                0
            })
            &&& older <= revealed ==> visible == sessions.take(n)
        }),
    decreases n,
{
    if n > 0 {
        lemma_visible_counts(sessions, timestamps, recent_cutoff, revealed, n - 1);
        assert(sessions.take(n) =~= sessions.take(n - 1).push(sessions[n - 1]));
    } else {
        assert(sessions.take(0) =~= Seq::<Id>::empty());
    }
}

/// A project offers to show more exactly while one of its sessions is hidden.
pub proof fn more_is_offered_while_something_is_hidden(
    sessions: Seq<Id>,
    timestamps: Map<Id, u64>,
    recent_cutoff: u64,
    revealed: nat,
)
    ensures
        ({
            let count = sessions.len() as int;
            let older = older_sessions(sessions, timestamps, recent_cutoff, count);
            let visible = visible_sessions(sessions, timestamps, recent_cutoff, revealed, count);
            &&& older > revealed <==> visible.len() < sessions.len()
            &&& !(older > revealed) ==> visible == sessions
        }),
{
    lemma_visible_counts(sessions, timestamps, recent_cutoff, revealed, sessions.len() as int);
    assert(sessions.take(sessions.len() as int) =~= sessions);
}

// ── Rows ───────────────────────────────────────────────────────────────────

/// One row for each session.
pub open spec fn session_rows(sessions: Seq<Id>) -> Seq<SidebarRow> {
    sessions.map_values(|session: Id| SidebarRow::Session(session))
}

/// The rows of a section.
pub open spec fn group_rows(
    group: SidebarGroup,
    sessions: Seq<Id>,
    collapsed: bool,
    show_more: bool,
) -> Seq<SidebarRow> {
    let more = if show_more {
        seq![SidebarRow::ShowMore(group)]
    } else {
        Seq::empty()
    };
    let inside = if collapsed {
        Seq::empty()
    } else {
        session_rows(sessions) + more
    };
    if sessions.len() == 0 && !show_more {
        Seq::empty()
    } else {
        seq![SidebarRow::Header(group)] + inside + seq![SidebarRow::GroupSpacer]
    }
}

/// Add the rows of a section: none where it has nothing to show, only its
/// header and the space below where it is folded.
pub fn append_sidebar_group_rows(
    rows: &mut Vec<SidebarRow>,
    group: SidebarGroup,
    sessions: &Vec<Id>,
    collapsed: bool,
    show_more: bool,
)
    ensures
        final(rows)@ == old(rows)@ + group_rows(group, sessions@, collapsed, show_more),
{
    let ghost before = rows@;
    if sessions.is_empty() && !show_more {
        assert(before + Seq::<SidebarRow>::empty() =~= before);
        return;
    }
    rows.push(SidebarRow::Header(group));
    let ghost head = before + seq![SidebarRow::Header(group)];
    assert(rows@ =~= head);
    if !collapsed {
        let mut i: usize = 0;
        assert(session_rows(sessions@).take(0) =~= Seq::<SidebarRow>::empty());
        assert(rows@ =~= head + session_rows(sessions@).take(0));
        while i < sessions.len()
            invariant
                i <= sessions@.len(),
                rows@ == head + session_rows(sessions@).take(i as int),
            decreases sessions@.len() - i,
        {
            rows.push(SidebarRow::Session(sessions[i]));
            assert(rows@ =~= head + session_rows(sessions@).take(i + 1));
            i += 1;
        }
        assert(session_rows(sessions@).take(i as int) =~= session_rows(sessions@));
        if show_more {
            rows.push(SidebarRow::ShowMore(group));
        }
    }
    rows.push(SidebarRow::GroupSpacer);
    assert(rows@ =~= before + group_rows(group, sessions@, collapsed, show_more));
}

/// The first `n` sessions that fall into a period.
pub open spec fn sessions_in(
    sorted: Seq<SidebarEntry>,
    dates: Seq<SessionDateGroup>,
    group: SessionDateGroup,
    n: int,
) -> Seq<Id>
    decreases n,
{
    if n <= 0 {
        Seq::empty()
    } else if dates[n - 1] == group {
        sessions_in(sorted, dates, group, n - 1).push(sorted[n - 1].id)
    } else {
        sessions_in(sorted, dates, group, n - 1)
    }
}

fn collect_sessions_in(
    sorted: &Vec<SidebarEntry>,
    dates: &Vec<SessionDateGroup>,
    group: SessionDateGroup,
) -> (sessions: Vec<Id>)
    requires
        sorted@.len() == dates@.len(),
    ensures
        sessions@ == sessions_in(sorted@, dates@, group, sorted@.len() as int),
{
    let mut sessions: Vec<Id> = Vec::new();
    let mut i: usize = 0;
    while i < sorted.len()
        invariant
            i <= sorted@.len(),
            sorted@.len() == dates@.len(),
            sessions@ == sessions_in(sorted@, dates@, group, i as int),
        decreases sorted@.len() - i,
    {
        if dates[i] == group {
            sessions.push(sorted[i].id);
        }
        i += 1;
    }
    sessions
}

/// The periods from top to bottom.
pub open spec fn periods(ordering: SidebarOrdering) -> Seq<SessionDateGroup> {
    match ordering {
        SidebarOrdering::Newest => seq![
            SessionDateGroup::Today,
            SessionDateGroup::Yesterday,
            SessionDateGroup::ThisWeek,
            SessionDateGroup::ThisMonth,
            SessionDateGroup::ThisYear,
            SessionDateGroup::More,
        ],
        SidebarOrdering::Oldest => seq![
            SessionDateGroup::More,
            SessionDateGroup::ThisYear,
            SessionDateGroup::ThisMonth,
            SessionDateGroup::ThisWeek,
            SessionDateGroup::Yesterday,
            SessionDateGroup::Today,
        ],
    }
}

fn list_periods(ordering: SidebarOrdering) -> (groups: Vec<SessionDateGroup>)
    ensures
        groups@ == periods(ordering),
{
    match ordering {
        SidebarOrdering::Newest => vec![
            SessionDateGroup::Today,
            SessionDateGroup::Yesterday,
            SessionDateGroup::ThisWeek,
            SessionDateGroup::ThisMonth,
            SessionDateGroup::ThisYear,
            SessionDateGroup::More,
        ],
        SidebarOrdering::Oldest => vec![
            SessionDateGroup::More,
            SessionDateGroup::ThisYear,
            SessionDateGroup::ThisMonth,
            SessionDateGroup::ThisWeek,
            SessionDateGroup::Yesterday,
            SessionDateGroup::Today,
        ],
    }
}

/// The rows of the first `n` periods.
pub open spec fn period_rows(
    state: SidebarState,
    sorted: Seq<SidebarEntry>,
    dates: Seq<SessionDateGroup>,
    n: int,
) -> Seq<SidebarRow>
    decreases n,
{
    if n <= 0 {
        Seq::empty()
    } else {
        let group = SidebarGroup::Updated(periods(state.ordering)[n - 1]);
        period_rows(state, sorted, dates, n - 1) + group_rows(
            group,
            sessions_in(
                sorted,
                dates,
                periods(state.ordering)[n - 1],
                sorted.len() as int,
            ),
            state.collapsed@.contains(group),
            false,
        )
    }
}

/// When the first `n` sessions were last active.
pub open spec fn timestamps_of(entries: Seq<SidebarEntry>, n: int) -> Map<Id, u64>
    decreases n,
{
    if n <= 0 {
        Map::empty()
    } else {
        timestamps_of(entries, n - 1).insert(entries[n - 1].id, entries[n - 1].timestamp)
    }
}

/// The first `n` projects that only hold loose tasks.
pub open spec fn projectless_ids(projects: Seq<SidebarProject>, n: int) -> Set<Id>
    decreases n,
{
    if n <= 0 {
        Set::empty()
    } else if projects[n - 1].projectless {
        projectless_ids(projects, n - 1).insert(projects[n - 1].id)
    } else {
        projectless_ids(projects, n - 1)
    }
}

/// How many older sessions of a section have been revealed.
pub open spec fn reveal_of(revealed: Seq<Reveal>, group: SidebarGroup) -> Option<usize>
    decreases revealed.len(),
{
    if revealed.len() == 0 {
        None
    } else if revealed.last().group == group {
        Some(revealed.last().count)
    } else {
        reveal_of(revealed.drop_last(), group)
    }
}

/// How many older sessions of a section are shown.
pub open spec fn revealed_count(revealed: Seq<Reveal>, group: SidebarGroup) -> usize {
    match reveal_of(revealed, group) {
        Some(count) => count,
        None => 0,
    }
}

/// Since when a session counts as recent.
pub open spec fn cutoff(now: u64) -> u64 {
    if now >= SIDEBAR_PROJECT_RECENT_WINDOW_SECONDS {
        (now - SIDEBAR_PROJECT_RECENT_WINDOW_SECONDS) as u64
    } else {
        0
    }
}

/// The rows of the first `n` project sections.
pub open spec fn project_rows(
    state: SidebarState,
    sections: Seq<SectionView>,
    timestamps: Map<Id, u64>,
    now: u64,
    n: int,
) -> Seq<SidebarRow>
    decreases n,
{
    if n <= 0 {
        Seq::empty()
    } else {
        let section = sections[n - 1];
        let count = section.sessions.len() as int;
        let revealed = revealed_count(state.revealed@, section.group) as nat;
        project_rows(state, sections, timestamps, now, n - 1) + group_rows(
            section.group,
            visible_sessions(section.sessions, timestamps, cutoff(now), revealed, count),
            state.collapsed@.contains(section.group),
            older_sessions(section.sessions, timestamps, cutoff(now), count) > revealed,
        )
    }
}

/// Where a project stands, or -1.
pub open spec fn project_at(projects: Seq<SidebarProject>, id: Id) -> int
    decreases projects.len(),
{
    if projects.len() == 0 {
        -1
    } else if projects[0].id == id {
        0
    } else if project_at(projects.skip(1), id) < 0 {
        -1
    } else {
        project_at(projects.skip(1), id) + 1
    }
}

/// The section of a project.
pub open spec fn project_group(project: SidebarProject) -> SidebarGroup {
    if project.projectless {
        SidebarGroup::Projectless
    } else {
        SidebarGroup::Project(project.id)
    }
}

/// The section whose header is shown while there is no history.
pub open spec fn empty_group(grouping: SidebarGrouping, history: SidebarHistory) -> SidebarGroup {
    match grouping {
        SidebarGrouping::Updated => SidebarGroup::Updated(SessionDateGroup::Today),
        SidebarGrouping::Project => {
            let at = match history.selected_project {
                Some(id) => project_at(history.projects@, id),
                None => -1,
            };
            if at >= 0 {
                project_group(history.projects@[at])
            } else if history.projects@.len() > 0 {
                project_group(history.projects@[0])
            } else {
                SidebarGroup::Projectless
            }
        },
    }
}

/// The sidebar's rows for sessions in order, each with its period where the
/// sidebar groups by period. While there is no history the actions' header
/// stands alone.
pub open spec fn rows_of(
    state: SidebarState,
    history: SidebarHistory,
    sorted: Seq<SidebarEntry>,
    dates: Seq<SessionDateGroup>,
    now: u64,
) -> Seq<SidebarRow> {
    let listed = match state.grouping {
        SidebarGrouping::Updated => period_rows(state, sorted, dates, 6),
        SidebarGrouping::Project => {
            let sections = by_project(
                sorted,
                projectless_ids(history.projects@, history.projects@.len() as int),
            );
            project_rows(
                state,
                sections,
                timestamps_of(sorted, sorted.len() as int),
                now,
                sections.len() as int,
            )
        },
    };
    if listed.len() == 0 {
        seq![SidebarRow::Search, SidebarRow::Header(empty_group(state.grouping, history))]
    } else {
        seq![SidebarRow::Search] + listed
    }
}

pub(crate) fn has_group(groups: &Vec<SidebarGroup>, group: SidebarGroup) -> (found: bool)
    ensures
        found == groups@.contains(group),
{
    let mut i: usize = 0;
    while i < groups.len()
        invariant
            i <= groups@.len(),
            forall|k: int| 0 <= k < i ==> #[trigger] groups@[k] != group,
        decreases groups@.len() - i,
    {
        if groups[i] == group {
            assert(groups@[i as int] == group);
            return true;
        }
        i += 1;
    }
    false
}

pub(crate) fn find_reveal(revealed: &Vec<Reveal>, group: SidebarGroup) -> (found: Option<usize>)
    ensures
        match found {
            Some(i) => i < revealed@.len() && revealed@[i as int].group == group && reveal_of(
                revealed@,
                group,
            ) == Some(revealed@[i as int].count),
            None => reveal_of(revealed@, group) is None && forall|k: int|
                0 <= k < revealed@.len() ==> (#[trigger] revealed@[k]).group != group,
        },
{
    let mut i: usize = revealed.len();
    assert(revealed@.take(i as int) =~= revealed@);
    while i > 0
        invariant
            i <= revealed@.len(),
            reveal_of(revealed@, group) == reveal_of(revealed@.take(i as int), group),
            forall|k: int| i <= k < revealed@.len() ==> (#[trigger] revealed@[k]).group != group,
        decreases i,
    {
        assert(revealed@.take(i as int).last() == revealed@[i - 1]);
        assert(revealed@.take(i as int).drop_last() =~= revealed@.take(i - 1));
        if revealed[i - 1].group == group {
            return Some(i - 1);
        }
        i -= 1;
    }
    None
}

fn shown_count(revealed: &Vec<Reveal>, group: SidebarGroup) -> (count: usize)
    ensures
        count == revealed_count(revealed@, group),
{
    match find_reveal(revealed, group) {
        Some(i) => revealed[i].count,
        None => 0,
    }
}

fn find_project(projects: &Vec<SidebarProject>, id: Id) -> (found: Option<usize>)
    ensures
        match found {
            Some(i) => i < projects@.len() && project_at(projects@, id) == i,
            None => project_at(projects@, id) < 0,
        },
{
    let mut i: usize = 0;
    assert(projects@.skip(0) =~= projects@);
    while i < projects.len()
        invariant
            i <= projects@.len(),
            project_at(projects@, id) == (if project_at(projects@.skip(i as int), id) < 0 {
                -1
            } else {
                project_at(projects@.skip(i as int), id) + i
            }),
        decreases projects@.len() - i,
    {
        assert(projects@.skip(i as int)[0] == projects@[i as int]);
        assert(projects@.skip(i as int).skip(1) =~= projects@.skip(i + 1));
        if projects[i].id == id {
            return Some(i);
        }
        i += 1;
    }
    None
}

fn group_of_project(project: &SidebarProject) -> (group: SidebarGroup)
    ensures
        group == project_group(*project),
{
    if project.projectless {
        SidebarGroup::Projectless
    } else {
        SidebarGroup::Project(project.id)
    }
}

fn group_without_history(grouping: SidebarGrouping, history: &SidebarHistory) -> (group:
    SidebarGroup)
    ensures
        group == empty_group(grouping, *history),
{
    match grouping {
        SidebarGrouping::Updated => SidebarGroup::Updated(SessionDateGroup::Today),
        SidebarGrouping::Project => {
            if let Some(id) = history.selected_project {
                if let Some(at) = find_project(&history.projects, id) {
                    return group_of_project(&history.projects[at]);
                }
            }
            if history.projects.len() > 0 {
                group_of_project(&history.projects[0])
            } else {
                SidebarGroup::Projectless
            }
        },
    }
}

fn collect_timestamps(entries: &Vec<SidebarEntry>) -> (timestamps: HashMap<Id, u64>)
    ensures
        timestamps@ == timestamps_of(entries@, entries@.len() as int),
{
    let mut timestamps: HashMap<Id, u64> = HashMap::new();
    let mut i: usize = 0;
    assert(timestamps@ =~= Map::<Id, u64>::empty());
    while i < entries.len()
        invariant
            i <= entries@.len(),
            timestamps@ == timestamps_of(entries@, i as int),
        decreases entries@.len() - i,
    {
        timestamps.insert(entries[i].id, entries[i].timestamp);
        i += 1;
    }
    timestamps
}

fn collect_projectless(projects: &Vec<SidebarProject>) -> (ids: HashSet<Id>)
    ensures
        ids@ == projectless_ids(projects@, projects@.len() as int),
{
    let mut ids: HashSet<Id> = HashSet::new();
    let mut i: usize = 0;
    assert(ids@ =~= Set::<Id>::empty());
    while i < projects.len()
        invariant
            i <= projects@.len(),
            ids@ == projectless_ids(projects@, i as int),
        decreases projects@.len() - i,
    {
        if projects[i].projectless {
            ids.insert(projects[i].id);
        }
        i += 1;
    }
    ids
}

/// The sidebar's rows for sessions in order, each with its period where the
/// sidebar groups by period.
pub fn sidebar_rows_for(
    state: &SidebarState,
    history: &SidebarHistory,
    sorted: &Vec<SidebarEntry>,
    dates: &Vec<SessionDateGroup>,
    now: u64,
) -> (rows: Vec<SidebarRow>)
    requires
        state.grouping == SidebarGrouping::Updated ==> dates@.len() == sorted@.len(),
    ensures
        rows@ == rows_of(*state, *history, sorted@, dates@, now),
{
    let mut rows: Vec<SidebarRow> = Vec::new();
    rows.push(SidebarRow::Search);
    let ghost head = seq![SidebarRow::Search];
    assert(rows@ =~= head + Seq::<SidebarRow>::empty());
    match state.grouping {
        SidebarGrouping::Updated => {
            let groups = list_periods(state.ordering);
            let mut i: usize = 0;
            while i < groups.len()
                invariant
                    i <= groups@.len(),
                    groups@ == periods(state.ordering),
                    dates@.len() == sorted@.len(),
                    rows@ == head + period_rows(*state, sorted@, dates@, i as int),
                decreases groups@.len() - i,
            {
                let group = SidebarGroup::Updated(groups[i]);
                let sessions = collect_sessions_in(sorted, dates, groups[i]);
                let collapsed = has_group(&state.collapsed, group);
                append_sidebar_group_rows(&mut rows, group, &sessions, collapsed, false);
                assert(rows@ =~= head + period_rows(*state, sorted@, dates@, i + 1));
                i += 1;
            }
        },
        SidebarGrouping::Project => {
            let recent_cutoff: u64 = now.saturating_sub(SIDEBAR_PROJECT_RECENT_WINDOW_SECONDS);
            let timestamps = collect_timestamps(sorted);
            let projectless = collect_projectless(&history.projects);
            let sections = project_sidebar_groups(sorted, &projectless);
            let ghost views = sections_view(sections@);
            let mut i: usize = 0;
            while i < sections.len()
                invariant
                    i <= sections@.len(),
                    views == sections_view(sections@),
                    recent_cutoff == cutoff(now),
                    rows@ == head + project_rows(*state, views, timestamps@, now, i as int),
                decreases sections@.len() - i,
            {
                let section = &sections[i];
                assert(views[i as int] == section@);
                let revealed: usize = shown_count(&state.revealed, section.group);
                let (visible, show_more) = visible_project_sessions(
                    &section.sessions,
                    &timestamps,
                    recent_cutoff,
                    revealed,
                );
                let collapsed = has_group(&state.collapsed, section.group);
                append_sidebar_group_rows(
                    &mut rows,
                    section.group,
                    &visible,
                    collapsed,
                    show_more,
                );
                assert(rows@ =~= head + project_rows(*state, views, timestamps@, now, i + 1));
                i += 1;
            }
        },
    }
    if rows.len() == 1 {
        rows.push(SidebarRow::Header(group_without_history(state.grouping, history)));
        assert(rows@ =~= seq![
            SidebarRow::Search,
            SidebarRow::Header(empty_group(state.grouping, *history)),
        ]);
    }
    rows
}

/// Whether each session's period is one that its time can fall into.
pub open spec fn periods_fit(
    sorted: Seq<SidebarEntry>,
    today: CalendarDate,
    dates: Seq<SessionDateGroup>,
) -> bool {
    &&& dates.len() == sorted.len()
    &&& forall|i: int|
        0 <= i < dates.len() ==> calendar::possible_period(
            sorted[i].timestamp,
            today,
            #[trigger] dates[i],
        )
}

/// Whether these are the sidebar's rows in some time zone.
pub open spec fn shows_rows(
    state: SidebarState,
    history: SidebarHistory,
    today: CalendarDate,
    now: u64,
    rows: Seq<SidebarRow>,
) -> bool {
    let sorted = ordered(history.entries@, state.ordering);
    match state.grouping {
        SidebarGrouping::Updated => exists|dates: Seq<SessionDateGroup>|
            periods_fit(sorted, today, dates) && rows == #[trigger] rows_of(
                state,
                history,
                sorted,
                dates,
                now,
            ),
        SidebarGrouping::Project => rows == rows_of(state, history, sorted, Seq::empty(), now),
    }
}

/// Whether every session has a time that can be placed in the calendar.
pub open spec fn entries_placeable(entries: Seq<SidebarEntry>) -> bool {
    forall|i: int| 0 <= i < entries.len() ==> calendar::placeable((#[trigger] entries[i]).timestamp)
}

/// The sidebar's rows on a day: the history under the current grouping and
/// ordering. Which period a session falls into depends on the time zone.
pub fn sidebar_rows(
    state: &SidebarState,
    history: &SidebarHistory,
    today: CalendarDate,
    now: u64,
) -> (rows: Vec<SidebarRow>)
    requires
        today.valid(),
        state.grouping == SidebarGrouping::Updated ==> entries_placeable(history.entries@),
    ensures
        shows_rows(*state, *history, today, now, rows@),
{
    broadcast use vstd::seq_lib::group_to_multiset_ensures;

    let sorted = sort_sidebar_sessions(&history.entries, state.ordering);
    let mut dates: Vec<SessionDateGroup> = Vec::new();
    if state.grouping == SidebarGrouping::Updated {
        proof {
            ordering_keeps_every_session(history.entries@, state.ordering);
            assert forall|i: int| 0 <= i < sorted@.len() implies calendar::placeable(
                (#[trigger] sorted@[i]).timestamp,
            ) by {
                assert(sorted@.to_multiset().count(sorted@[i]) > 0);
                assert(history.entries@.contains(sorted@[i]));
                let k = choose|k: int|
                    0 <= k < history.entries@.len() && history.entries@[k] == sorted@[i];
                assert(calendar::placeable(history.entries@[k].timestamp));
            }
        }
        let mut i: usize = 0;
        while i < sorted.len()
            invariant
                i <= sorted@.len(),
                today.valid(),
                entries_placeable(sorted@),
                dates@.len() == i,
                forall|k: int|
                    0 <= k < i ==> calendar::possible_period(
                        sorted@[k].timestamp,
                        today,
                        #[trigger] dates@[k],
                    ),
            decreases sorted@.len() - i,
        {
            assert(calendar::placeable(sorted@[i as int].timestamp));
            dates.push(calendar::session_date_group(sorted[i].timestamp, today));
            i += 1;
        }
        assert(periods_fit(sorted@, today, dates@));
    } else {
        assert(dates@ =~= Seq::<SessionDateGroup>::empty());
    }
    sidebar_rows_for(state, history, &sorted, &dates, now)
}

proof fn lemma_period_rows_start(
    state: SidebarState,
    sorted: Seq<SidebarEntry>,
    dates: Seq<SessionDateGroup>,
    n: int,
)
    ensures
        period_rows(state, sorted, dates, n).len() > 0 ==> period_rows(state, sorted, dates, n)[0]
            is Header,
    decreases n,
{
    if n > 0 {
        lemma_period_rows_start(state, sorted, dates, n - 1);
    }
}

proof fn lemma_project_rows_start(
    state: SidebarState,
    sections: Seq<SectionView>,
    timestamps: Map<Id, u64>,
    now: u64,
    n: int,
)
    ensures
        project_rows(state, sections, timestamps, now, n).len() > 0 ==> project_rows(
            state,
            sections,
            timestamps,
            now,
            n,
        )[0] is Header,
    decreases n,
{
    if n > 0 {
        lemma_project_rows_start(state, sections, timestamps, now, n - 1);
    }
}

/// The search row comes first and a header second, which carries the
/// sidebar's actions; history or not, folded or not.
pub proof fn the_actions_are_always_reachable(
    state: SidebarState,
    history: SidebarHistory,
    sorted: Seq<SidebarEntry>,
    dates: Seq<SessionDateGroup>,
    now: u64,
)
    ensures
        ({
            let rows = rows_of(state, history, sorted, dates, now);
            rows.len() >= 2 && rows[0] == SidebarRow::Search && rows[1] is Header
        }),
{
    let sections = by_project(
        sorted,
        projectless_ids(history.projects@, history.projects@.len() as int),
    );
    lemma_period_rows_start(state, sorted, dates, 6);
    lemma_project_rows_start(
        state,
        sections,
        timestamps_of(sorted, sorted.len() as int),
        now,
        sections.len() as int,
    );
}

proof fn lemma_sessions_in_holds(
    sorted: Seq<SidebarEntry>,
    dates: Seq<SessionDateGroup>,
    group: SessionDateGroup,
    i: int,
    n: int,
)
    requires
        0 <= i < n <= sorted.len(),
        dates[i] == group,
    ensures
        sessions_in(sorted, dates, group, n).contains(sorted[i].id),
    decreases n,
{
    let ids = sessions_in(sorted, dates, group, n);
    if i == n - 1 {
        assert(ids[ids.len() - 1] == sorted[i].id);
    } else {
        lemma_sessions_in_holds(sorted, dates, group, i, n - 1);
        let above = sessions_in(sorted, dates, group, n - 1);
        let k = choose|k: int| 0 <= k < above.len() && above[k] == sorted[i].id;
        assert(ids[k] == sorted[i].id);
    }
}

proof fn lemma_group_rows_hold(
    group: SidebarGroup,
    sessions: Seq<Id>,
    show_more: bool,
    session: Id,
)
    requires
        sessions.contains(session),
    ensures
        group_rows(group, sessions, false, show_more).contains(SidebarRow::Session(session)),
{
    let k = choose|k: int| 0 <= k < sessions.len() && sessions[k] == session;
    let rows = group_rows(group, sessions, false, show_more);
    assert(session_rows(sessions)[k] == SidebarRow::Session(session));
    assert(rows[k + 1] == SidebarRow::Session(session));
}

proof fn lemma_period_rows_hold(
    state: SidebarState,
    sorted: Seq<SidebarEntry>,
    dates: Seq<SessionDateGroup>,
    i: int,
    n: int,
    place: int,
)
    requires
        0 <= i < sorted.len(),
        0 <= place < n <= 6,
        periods(state.ordering)[place] == dates[i],
        !state.collapsed@.contains(SidebarGroup::Updated(dates[i])),
    ensures
        period_rows(state, sorted, dates, n).contains(SidebarRow::Session(sorted[i].id)),
    decreases n,
{
    let row = SidebarRow::Session(sorted[i].id);
    let rows = period_rows(state, sorted, dates, n);
    let above = period_rows(state, sorted, dates, n - 1);
    if place == n - 1 {
        let sessions = sessions_in(sorted, dates, dates[i], sorted.len() as int);
        lemma_sessions_in_holds(sorted, dates, dates[i], i, sorted.len() as int);
        lemma_group_rows_hold(SidebarGroup::Updated(dates[i]), sessions, false, sorted[i].id);
        let added = group_rows(SidebarGroup::Updated(dates[i]), sessions, false, false);
        let k = choose|k: int| 0 <= k < added.len() && added[k] == row;
        assert(rows[above.len() + k] == row);
    } else {
        lemma_period_rows_hold(state, sorted, dates, i, n - 1, place);
        let k = choose|k: int| 0 <= k < above.len() && above[k] == row;
        assert(rows[k] == row);
    }
}

/// Grouped by period, the sidebar lists every session whose section is not
/// folded.
pub proof fn open_periods_list_their_sessions(
    state: SidebarState,
    history: SidebarHistory,
    sorted: Seq<SidebarEntry>,
    dates: Seq<SessionDateGroup>,
    now: u64,
    i: int,
)
    requires
        state.grouping == SidebarGrouping::Updated,
        dates.len() == sorted.len(),
        0 <= i < sorted.len(),
        !state.collapsed@.contains(SidebarGroup::Updated(dates[i])),
    ensures
        rows_of(state, history, sorted, dates, now).contains(SidebarRow::Session(sorted[i].id)),
{
    let place = match state.ordering {
        SidebarOrdering::Newest => dates[i].place(),
        SidebarOrdering::Oldest => 5 - dates[i].place(),
    };
    let row = SidebarRow::Session(sorted[i].id);
    lemma_period_rows_hold(state, sorted, dates, i, 6, place);
    let listed = period_rows(state, sorted, dates, 6);
    let k = choose|k: int| 0 <= k < listed.len() && listed[k] == row;
    assert(rows_of(state, history, sorted, dates, now)[k + 1] == row);
}

proof fn lemma_section_at_updated(
    sections: Seq<SectionView>,
    at: int,
    section: SectionView,
    group: SidebarGroup,
)
    requires
        0 <= at < sections.len(),
        sections[at].group == section.group,
    ensures
        section_at(sections.update(at, section), group) == section_at(sections, group),
    decreases sections.len(),
{
    let updated = sections.update(at, section);
    if at < sections.len() - 1 {
        lemma_section_at_updated(sections.drop_last(), at, section, group);
        assert(updated.drop_last() =~= sections.drop_last().update(at, section));
    } else {
        assert(updated.drop_last() =~= sections.drop_last());
    }
}

proof fn lemma_project_sections_hold(
    entries: Seq<SidebarEntry>,
    projectless: Set<Id>,
    i: int,
    n: int,
)
    requires
        0 <= i < n <= entries.len(),
        !projectless.contains(entries[i].project_id),
    ensures
        ({
            let sections = project_sections(entries, projectless, n);
            let at = section_at(sections, SidebarGroup::Project(entries[i].project_id));
            0 <= at < sections.len() && sections[at].sessions.contains(entries[i].id)
        }),
    decreases n,
{
    let before = project_sections(entries, projectless, n - 1);
    let after = project_sections(entries, projectless, n);
    let entry = entries[n - 1];
    let group = SidebarGroup::Project(entry.project_id);
    let own = SidebarGroup::Project(entries[i].project_id);
    let at = section_at(before, group);
    lemma_section_at(before, group);
    lemma_section_at(after, own);
    if i < n - 1 {
        lemma_project_sections_hold(entries, projectless, i, n - 1);
    }
    if !projectless.contains(entry.project_id) {
        if at >= 0 {
            let grown = SectionView { group, sessions: before[at].sessions.push(entry.id) };
            lemma_section_at_updated(before, at, grown, own);
            if i == n - 1 {
                assert(grown.sessions[grown.sessions.len() - 1] == entry.id);
            } else if own == group {
                let k = choose|k: int|
                    0 <= k < before[at].sessions.len() && before[at].sessions[k] == entries[i].id;
                assert(grown.sessions[k] == entries[i].id);
            }
        } else {
            assert(after.drop_last() =~= before);
            if i == n - 1 {
                assert(after[after.len() - 1].sessions[0] == entry.id);
            }
        }
    }
}

proof fn lemma_visible_holds(
    sessions: Seq<Id>,
    timestamps: Map<Id, u64>,
    recent_cutoff: u64,
    revealed: nat,
    k: int,
    n: int,
)
    requires
        0 <= k < n <= sessions.len(),
        recent(timestamps, sessions[k], recent_cutoff),
    ensures
        visible_sessions(sessions, timestamps, recent_cutoff, revealed, n).contains(sessions[k]),
    decreases n,
{
    let visible = visible_sessions(sessions, timestamps, recent_cutoff, revealed, n);
    if k == n - 1 {
        assert(visible[visible.len() - 1] == sessions[k]);
    } else {
        lemma_visible_holds(sessions, timestamps, recent_cutoff, revealed, k, n - 1);
        let above = visible_sessions(sessions, timestamps, recent_cutoff, revealed, n - 1);
        let j = choose|j: int| 0 <= j < above.len() && above[j] == sessions[k];
        assert(visible[j] == sessions[k]);
    }
}

proof fn lemma_project_rows_hold(
    state: SidebarState,
    sections: Seq<SectionView>,
    timestamps: Map<Id, u64>,
    now: u64,
    n: int,
    at: int,
    session: Id,
)
    requires
        0 <= at < n <= sections.len(),
        sections[at].sessions.contains(session),
        recent(timestamps, session, cutoff(now)),
        !state.collapsed@.contains(sections[at].group),
    ensures
        project_rows(state, sections, timestamps, now, n).contains(SidebarRow::Session(session)),
    decreases n,
{
    let row = SidebarRow::Session(session);
    let rows = project_rows(state, sections, timestamps, now, n);
    let above = project_rows(state, sections, timestamps, now, n - 1);
    if at == n - 1 {
        let section = sections[at];
        let count = section.sessions.len() as int;
        let revealed = revealed_count(state.revealed@, section.group) as nat;
        let visible = visible_sessions(
            section.sessions,
            timestamps,
            cutoff(now),
            revealed,
            count,
        );
        let more = older_sessions(section.sessions, timestamps, cutoff(now), count) > revealed;
        let k = choose|k: int|
            0 <= k < section.sessions.len() && section.sessions[k] == session;
        lemma_visible_holds(section.sessions, timestamps, cutoff(now), revealed, k, count);
        lemma_group_rows_hold(section.group, visible, more, session);
        let added = group_rows(section.group, visible, false, more);
        let j = choose|j: int| 0 <= j < added.len() && added[j] == row;
        assert(rows[above.len() + j] == row);
    } else {
        lemma_project_rows_hold(state, sections, timestamps, now, n - 1, at, session);
        let k = choose|k: int| 0 <= k < above.len() && above[k] == row;
        assert(rows[k] == row);
    }
}

/// Grouped by project, the sidebar lists every recent session of a project
/// whose section is not folded.
pub proof fn open_projects_list_their_recent_sessions(
    state: SidebarState,
    history: SidebarHistory,
    sorted: Seq<SidebarEntry>,
    dates: Seq<SessionDateGroup>,
    now: u64,
    i: int,
)
    requires
        state.grouping == SidebarGrouping::Project,
        0 <= i < sorted.len(),
        !projectless_ids(history.projects@, history.projects@.len() as int).contains(
            sorted[i].project_id,
        ),
        recent(timestamps_of(sorted, sorted.len() as int), sorted[i].id, cutoff(now)),
        !state.collapsed@.contains(SidebarGroup::Project(sorted[i].project_id)),
    ensures
        rows_of(state, history, sorted, dates, now).contains(SidebarRow::Session(sorted[i].id)),
{
    let projectless = projectless_ids(history.projects@, history.projects@.len() as int);
    let timestamps = timestamps_of(sorted, sorted.len() as int);
    let owned = project_sections(sorted, projectless, sorted.len() as int);
    let sections = by_project(sorted, projectless);
    let group = SidebarGroup::Project(sorted[i].project_id);
    let at = section_at(owned, group);
    lemma_project_sections_hold(sorted, projectless, i, sorted.len() as int);
    lemma_section_at(owned, group);
    assert(sections[at] == owned[at]);
    lemma_project_rows_hold(
        state,
        sections,
        timestamps,
        now,
        sections.len() as int,
        at,
        sorted[i].id,
    );
    let listed = project_rows(state, sections, timestamps, now, sections.len() as int);
    let row = SidebarRow::Session(sorted[i].id);
    let k = choose|k: int| 0 <= k < listed.len() && listed[k] == row;
    assert(rows_of(state, history, sorted, dates, now)[k + 1] == row);
}

// ── When rows are rebuilt ──────────────────────────────────────────────────

/// Where the sidebar's fingerprint starts.
pub const SIDEBAR_SEED: u64 = 0x51de_ba5e_5eed_c0de;

/// Where the fingerprint for branch labels starts.
pub const BRANCH_SEED: u64 = 0xb4a7_c4e5_51de_ba11;

/// The word for a yes or no.
pub open spec fn flag_word(flag: bool) -> u64 {
    if flag {
        1
    } else {
        0
    }
}

/// A session mixed into the fingerprint.
pub open spec fn entry_mixed(
    fingerprint: u64,
    entry: SidebarEntry,
    grouping: SidebarGrouping,
    now: u64,
) -> u64 {
    let own = transcript::mixed_all(fingerprint, transcript::id_words(entry.id));
    let project = transcript::mixed_all(own, transcript::id_words(entry.project_id));
    let time = transcript::mixed(project, entry.timestamp);
    if grouping == SidebarGrouping::Project {
        transcript::mixed(time, flag_word(entry.timestamp >= cutoff(now)))
    } else {
        time
    }
}

/// The first `n` sessions mixed into the fingerprint.
pub open spec fn entries_mixed(
    fingerprint: u64,
    entries: Seq<SidebarEntry>,
    grouping: SidebarGrouping,
    now: u64,
    n: int,
) -> u64
    decreases n,
{
    if n <= 0 {
        fingerprint
    } else {
        entry_mixed(
            entries_mixed(fingerprint, entries, grouping, now, n - 1),
            entries[n - 1],
            grouping,
            now,
        )
    }
}

/// The first `n` projects mixed into the fingerprint.
pub open spec fn projects_mixed(fingerprint: u64, projects: Seq<SidebarProject>, n: int) -> u64
    decreases n,
{
    if n <= 0 {
        fingerprint
    } else {
        transcript::mixed(
            transcript::mixed_all(
                projects_mixed(fingerprint, projects, n - 1),
                transcript::id_words(projects[n - 1].id),
            ),
            flag_word(projects[n - 1].projectless),
        )
    }
}

/// The sum of all words, wrapped around.
pub open spec fn wrapped_sum(words: Seq<u64>) -> u64
    decreases words.len(),
{
    if words.len() == 0 {
        0
    } else {
        wrapped_sum(words.drop_last()).wrapping_add(words.last())
    }
}

/// The word for each folded section.
pub open spec fn collapsed_words(groups: Seq<SidebarGroup>) -> Seq<u64> {
    groups.map_values(|group: SidebarGroup| group.mixed_into(0))
}

/// The word for each section with revealed sessions.
pub open spec fn reveal_words(revealed: Seq<Reveal>) -> Seq<u64> {
    revealed.map_values(|reveal: Reveal| reveal.group.mixed_into(reveal.count as u64))
}

/// The projects and what has been revealed of them, mixed into the
/// fingerprint.
pub open spec fn project_state_mixed(
    fingerprint: u64,
    state: SidebarState,
    history: SidebarHistory,
) -> u64 {
    let projects = projects_mixed(
        fingerprint,
        history.projects@,
        history.projects@.len() as int,
    );
    let selected = match history.selected_project {
        Some(id) => transcript::mixed_all(projects, transcript::id_words(id)),
        None => transcript::mixed(projects, u64::MAX),
    };
    transcript::mixed(
        transcript::mixed(selected, state.revealed@.len() as u64),
        wrapped_sum(reveal_words(state.revealed@)),
    )
}

/// A number for everything the sidebar's rows are built from.
pub open spec fn rows_fingerprint(
    state: SidebarState,
    history: SidebarHistory,
    today: CalendarDate,
    now: u64,
) -> u64 {
    let day = transcript::mixed(SIDEBAR_SEED, (today.number() as i32) as u64);
    let grouping = transcript::mixed(
        day,
        match state.grouping {
            SidebarGrouping::Project => 1,
            SidebarGrouping::Updated => 2,
        },
    );
    let ordering = transcript::mixed(
        grouping,
        match state.ordering {
            SidebarOrdering::Newest => 1,
            SidebarOrdering::Oldest => 2,
        },
    );
    let entries = entries_mixed(
        ordering,
        history.entries@,
        state.grouping,
        now,
        history.entries@.len() as int,
    );
    let projects = if state.grouping == SidebarGrouping::Project {
        project_state_mixed(entries, state, history)
    } else {
        entries
    };
    transcript::mixed(
        transcript::mixed(projects, state.collapsed@.len() as u64),
        wrapped_sum(collapsed_words(state.collapsed@)),
    )
}

fn word_of(flag: bool) -> (word: u64)
    ensures
        word == flag_word(flag),
{
    if flag {
        1
    } else {
        0
    }
}

fn mix_entries(
    fingerprint: u64,
    entries: &Vec<SidebarEntry>,
    grouping: SidebarGrouping,
    now: u64,
) -> (result: u64)
    ensures
        result == entries_mixed(fingerprint, entries@, grouping, now, entries@.len() as int),
{
    let recent_cutoff: u64 = now.saturating_sub(SIDEBAR_PROJECT_RECENT_WINDOW_SECONDS);
    let mut mixed: u64 = fingerprint;
    let mut i: usize = 0;
    while i < entries.len()
        invariant
            i <= entries@.len(),
            recent_cutoff == cutoff(now),
            mixed == entries_mixed(fingerprint, entries@, grouping, now, i as int),
        decreases entries@.len() - i,
    {
        let entry = entries[i];
        mixed = transcript::mix_uuid(mixed, entry.id);
        mixed = transcript::mix_uuid(mixed, entry.project_id);
        mixed = transcript::mix(mixed, entry.timestamp);
        if grouping == SidebarGrouping::Project {
            mixed = transcript::mix(mixed, word_of(entry.timestamp >= recent_cutoff));
        }
        i += 1;
    }
    mixed
}

fn mix_projects(fingerprint: u64, projects: &Vec<SidebarProject>) -> (result: u64)
    ensures
        result == projects_mixed(fingerprint, projects@, projects@.len() as int),
{
    let mut mixed: u64 = fingerprint;
    let mut i: usize = 0;
    while i < projects.len()
        invariant
            i <= projects@.len(),
            mixed == projects_mixed(fingerprint, projects@, i as int),
        decreases projects@.len() - i,
    {
        mixed = transcript::mix_uuid(mixed, projects[i].id);
        mixed = transcript::mix(mixed, word_of(projects[i].projectless));
        i += 1;
    }
    mixed
}

fn sum_collapsed(groups: &Vec<SidebarGroup>) -> (sum: u64)
    ensures
        sum == wrapped_sum(collapsed_words(groups@)),
{
    let mut sum: u64 = 0;
    let mut i: usize = 0;
    assert(collapsed_words(groups@).take(0) =~= Seq::<u64>::empty());
    while i < groups.len()
        invariant
            i <= groups@.len(),
            sum == wrapped_sum(collapsed_words(groups@).take(i as int)),
        decreases groups@.len() - i,
    {
        assert(collapsed_words(groups@).take(i + 1).drop_last() =~= collapsed_words(groups@).take(
            i as int,
        ));
        sum = sum.wrapping_add(groups[i].mix_fingerprint(0));
        i += 1;
    }
    assert(collapsed_words(groups@).take(i as int) =~= collapsed_words(groups@));
    sum
}

fn sum_revealed(revealed: &Vec<Reveal>) -> (sum: u64)
    ensures
        sum == wrapped_sum(reveal_words(revealed@)),
{
    let mut sum: u64 = 0;
    let mut i: usize = 0;
    assert(reveal_words(revealed@).take(0) =~= Seq::<u64>::empty());
    while i < revealed.len()
        invariant
            i <= revealed@.len(),
            sum == wrapped_sum(reveal_words(revealed@).take(i as int)),
        decreases revealed@.len() - i,
    {
        assert(reveal_words(revealed@).take(i + 1).drop_last() =~= reveal_words(revealed@).take(
            i as int,
        ));
        sum = sum.wrapping_add(revealed[i].group.mix_fingerprint(revealed[i].count as u64));
        i += 1;
    }
    assert(reveal_words(revealed@).take(i as int) =~= reveal_words(revealed@));
    sum
}

/// A number for everything the sidebar's rows are built from.
pub fn sidebar_rows_fingerprint(
    state: &SidebarState,
    history: &SidebarHistory,
    today: CalendarDate,
    now: u64,
) -> (fingerprint: u64)
    requires
        today.valid(),
    ensures
        fingerprint == rows_fingerprint(*state, *history, today, now),
{
    let day: i32 = match calendar::day_number(today) {
        Some(day) => day,
        None => 0,
    };
    let mut fingerprint: u64 = transcript::mix(SIDEBAR_SEED, #[verifier::truncate] (day as u64));
    fingerprint = transcript::mix(
        fingerprint,
        match state.grouping {
            SidebarGrouping::Project => 1,
            SidebarGrouping::Updated => 2,
        },
    );
    fingerprint = transcript::mix(
        fingerprint,
        match state.ordering {
            SidebarOrdering::Newest => 1,
            SidebarOrdering::Oldest => 2,
        },
    );
    fingerprint = mix_entries(fingerprint, &history.entries, state.grouping, now);
    if state.grouping == SidebarGrouping::Project {
        fingerprint = mix_projects(fingerprint, &history.projects);
        fingerprint = match history.selected_project {
            Some(id) => transcript::mix_uuid(fingerprint, id),
            None => transcript::mix(fingerprint, u64::MAX),
        };
        fingerprint = transcript::mix(fingerprint, state.revealed.len() as u64);
        fingerprint = transcript::mix(fingerprint, sum_revealed(&state.revealed));
    }
    fingerprint = transcript::mix(fingerprint, state.collapsed.len() as u64);
    transcript::mix(fingerprint, sum_collapsed(&state.collapsed))
}

/// The sum of all words.
pub open spec fn plain_sum(words: Seq<u64>) -> int
    decreases words.len(),
{
    if words.len() == 0 {
        0
    } else {
        plain_sum(words.drop_last()) + words.last()
    }
}

proof fn lemma_wrapped_sum(words: Seq<u64>)
    ensures
        wrapped_sum(words) == plain_sum(words) % 0x1_0000_0000_0000_0000,
        plain_sum(words) >= 0,
    decreases words.len(),
{
    if words.len() > 0 {
        lemma_wrapped_sum(words.drop_last());
    }
}

proof fn lemma_plain_sum_remove(words: Seq<u64>, at: int)
    requires
        0 <= at < words.len(),
    ensures
        plain_sum(words) == plain_sum(words.remove(at)) + words[at],
    decreases words.len(),
{
    if at < words.len() - 1 {
        lemma_plain_sum_remove(words.drop_last(), at);
        assert(words.remove(at).drop_last() =~= words.drop_last().remove(at));
    } else {
        assert(words.remove(at) =~= words.drop_last());
    }
}

proof fn lemma_collapsed_permuted(a: Seq<SidebarGroup>, b: Seq<SidebarGroup>)
    requires
        a.to_multiset() == b.to_multiset(),
    ensures
        a.len() == b.len(),
        plain_sum(collapsed_words(a)) == plain_sum(collapsed_words(b)),
    decreases a.len(),
{
    broadcast use vstd::seq_lib::group_to_multiset_ensures;

    assert(a.len() == a.to_multiset().len());
    assert(b.len() == b.to_multiset().len());
    if a.len() > 0 {
        assert(a.contains(a[a.len() - 1]));
        assert(a.to_multiset().count(a.last()) > 0);
        assert(b.contains(a.last()));
        let at = choose|at: int| 0 <= at < b.len() && b[at] == a.last();
        assert(a.drop_last() =~= a.remove(a.len() - 1));
        assert(a.drop_last().to_multiset() =~= b.remove(at).to_multiset());
        lemma_collapsed_permuted(a.drop_last(), b.remove(at));
        lemma_plain_sum_remove(collapsed_words(b), at);
        assert(collapsed_words(b).remove(at) =~= collapsed_words(b.remove(at)));
        assert(collapsed_words(a).drop_last() =~= collapsed_words(a.drop_last()));
    }
}

proof fn lemma_revealed_permuted(a: Seq<Reveal>, b: Seq<Reveal>)
    requires
        a.to_multiset() == b.to_multiset(),
    ensures
        a.len() == b.len(),
        plain_sum(reveal_words(a)) == plain_sum(reveal_words(b)),
    decreases a.len(),
{
    broadcast use vstd::seq_lib::group_to_multiset_ensures;

    assert(a.len() == a.to_multiset().len());
    assert(b.len() == b.to_multiset().len());
    if a.len() > 0 {
        assert(a.contains(a[a.len() - 1]));
        assert(a.to_multiset().count(a.last()) > 0);
        assert(b.contains(a.last()));
        let at = choose|at: int| 0 <= at < b.len() && b[at] == a.last();
        assert(a.drop_last() =~= a.remove(a.len() - 1));
        assert(a.drop_last().to_multiset() =~= b.remove(at).to_multiset());
        lemma_revealed_permuted(a.drop_last(), b.remove(at));
        lemma_plain_sum_remove(reveal_words(b), at);
        assert(reveal_words(b).remove(at) =~= reveal_words(b.remove(at)));
        assert(reveal_words(a).drop_last() =~= reveal_words(a.drop_last()));
    }
}

/// The order in which sections were folded or revealed does not move the
/// fingerprint.
pub proof fn the_order_of_folding_does_not_count(
    a: SidebarState,
    b: SidebarState,
    history: SidebarHistory,
    today: CalendarDate,
    now: u64,
)
    requires
        a.grouping == b.grouping,
        a.ordering == b.ordering,
        a.collapsed@.to_multiset() == b.collapsed@.to_multiset(),
        a.revealed@.to_multiset() == b.revealed@.to_multiset(),
    ensures
        rows_fingerprint(a, history, today, now) == rows_fingerprint(b, history, today, now),
{
    lemma_collapsed_permuted(a.collapsed@, b.collapsed@);
    lemma_revealed_permuted(a.revealed@, b.revealed@);
    lemma_wrapped_sum(collapsed_words(a.collapsed@));
    lemma_wrapped_sum(collapsed_words(b.collapsed@));
    lemma_wrapped_sum(reveal_words(a.revealed@));
    lemma_wrapped_sum(reveal_words(b.revealed@));
}

// ── What the snapshot keeps up with ────────────────────────────────────────

/// What the sidebar's rows are built from.
pub ghost struct Reading {
    pub state: SidebarState,
    pub history: SidebarHistory,
    pub today: CalendarDate,
    pub now: u64,
}

impl Reading {
    /// The number for all of it.
    pub open spec fn fingerprint(self) -> u64 {
        rows_fingerprint(self.state, self.history, self.today, self.now)
    }

    /// Whether these are its rows in some time zone.
    pub open spec fn shows(self, rows: Seq<SidebarRow>) -> bool {
        shows_rows(self.state, self.history, self.today, self.now, rows)
    }

    /// Whether everything that the rows read is the same. The time counts only
    /// as far as it decides which sessions are recent.
    pub open spec fn same_as(self, other: Reading) -> bool {
        &&& self.state.grouping == other.state.grouping
        &&& self.state.ordering == other.state.ordering
        &&& self.today == other.today
        &&& self.history.entries@ == other.history.entries@
        &&& forall|group: SidebarGroup| #[trigger]
            self.state.collapsed@.contains(group) == other.state.collapsed@.contains(group)
        &&& self.state.grouping == SidebarGrouping::Project ==> {
            &&& self.history.projects@ == other.history.projects@
            &&& self.history.selected_project == other.history.selected_project
            &&& forall|group: SidebarGroup| #[trigger]
                revealed_count(self.state.revealed@, group) == revealed_count(
                    other.state.revealed@,
                    group,
                )
            &&& forall|i: int|
                0 <= i < self.history.entries@.len() ==> ((
                #[trigger] self.history.entries@[i]).timestamp >= cutoff(self.now))
                    == (self.history.entries@[i].timestamp >= cutoff(other.now))
        }
    }
}

proof fn lemma_same_periods(
    a: SidebarState,
    b: SidebarState,
    sorted: Seq<SidebarEntry>,
    dates: Seq<SessionDateGroup>,
    n: int,
)
    requires
        a.ordering == b.ordering,
        forall|group: SidebarGroup| #[trigger]
            a.collapsed@.contains(group) == b.collapsed@.contains(group),
    ensures
        period_rows(a, sorted, dates, n) == period_rows(b, sorted, dates, n),
    decreases n,
{
    if n > 0 {
        lemma_same_periods(a, b, sorted, dates, n - 1);
    }
}

proof fn lemma_timestamp_of_an_entry(entries: Seq<SidebarEntry>, n: int, id: Id)
    requires
        0 <= n <= entries.len(),
        timestamps_of(entries, n).dom().contains(id),
    ensures
        exists|k: int|
            0 <= k < n && (#[trigger] entries[k]).timestamp == timestamps_of(entries, n)[id],
    decreases n,
{
    if n > 0 {
        if entries[n - 1].id == id {
            assert(entries[n - 1].timestamp == timestamps_of(entries, n)[id]);
        } else {
            lemma_timestamp_of_an_entry(entries, n - 1, id);
            let k = choose|k: int|
                0 <= k < n - 1 && (#[trigger] entries[k]).timestamp == timestamps_of(
                    entries,
                    n - 1,
                )[id];
            assert(entries[k].timestamp == timestamps_of(entries, n)[id]);
        }
    }
}

proof fn lemma_same_visible(
    sessions: Seq<Id>,
    timestamps: Map<Id, u64>,
    a: u64,
    b: u64,
    revealed: nat,
    n: int,
)
    requires
        forall|id: Id| #[trigger] recent(timestamps, id, a) == recent(timestamps, id, b),
    ensures
        older_sessions(sessions, timestamps, a, n) == older_sessions(sessions, timestamps, b, n),
        visible_sessions(sessions, timestamps, a, revealed, n) == visible_sessions(
            sessions,
            timestamps,
            b,
            revealed,
            n,
        ),
    decreases n,
{
    if n > 0 {
        lemma_same_visible(sessions, timestamps, a, b, revealed, n - 1);
        assert(recent(timestamps, sessions[n - 1], a) == recent(timestamps, sessions[n - 1], b));
    }
}

proof fn lemma_same_projects(
    a: Reading,
    b: Reading,
    sections: Seq<SectionView>,
    timestamps: Map<Id, u64>,
    n: int,
)
    requires
        a.same_as(b),
        a.state.grouping == SidebarGrouping::Project,
        forall|id: Id| #[trigger]
            recent(timestamps, id, cutoff(a.now)) == recent(timestamps, id, cutoff(b.now)),
    ensures
        project_rows(a.state, sections, timestamps, a.now, n) == project_rows(
            b.state,
            sections,
            timestamps,
            b.now,
            n,
        ),
    decreases n,
{
    if n > 0 {
        lemma_same_projects(a, b, sections, timestamps, n - 1);
        let section = sections[n - 1];
        assert(revealed_count(a.state.revealed@, section.group) == revealed_count(
            b.state.revealed@,
            section.group,
        ));
        assert(a.state.collapsed@.contains(section.group) == b.state.collapsed@.contains(
            section.group,
        ));
        lemma_same_visible(
            section.sessions,
            timestamps,
            cutoff(a.now),
            cutoff(b.now),
            revealed_count(a.state.revealed@, section.group) as nat,
            section.sessions.len() as int,
        );
    }
}

proof fn lemma_same_recency(a: Reading, b: Reading)
    requires
        a.same_as(b),
        a.state.grouping == SidebarGrouping::Project,
    ensures
        ({
            let sorted = ordered(a.history.entries@, a.state.ordering);
            let timestamps = timestamps_of(sorted, sorted.len() as int);
            forall|id: Id| #[trigger]
                recent(timestamps, id, cutoff(a.now)) == recent(timestamps, id, cutoff(b.now))
        }),
{
    broadcast use vstd::seq_lib::group_to_multiset_ensures;

    let entries = a.history.entries@;
    let sorted = ordered(entries, a.state.ordering);
    let timestamps = timestamps_of(sorted, sorted.len() as int);
    ordering_keeps_every_session(entries, a.state.ordering);
    assert forall|id: Id| #[trigger]
        recent(timestamps, id, cutoff(a.now)) == recent(timestamps, id, cutoff(b.now)) by {
        if timestamps.dom().contains(id) {
            lemma_timestamp_of_an_entry(sorted, sorted.len() as int, id);
            let k = choose|k: int|
                0 <= k < sorted.len() && (#[trigger] sorted[k]).timestamp == timestamps[id];
            assert(sorted.to_multiset().count(sorted[k]) > 0);
            assert(entries.contains(sorted[k]));
            let j = choose|j: int| 0 <= j < entries.len() && entries[j] == sorted[k];
            assert((entries[j].timestamp >= cutoff(a.now)) == (entries[j].timestamp >= cutoff(
                b.now,
            )));
        }
    }
}

/// Rows stay right for as long as nothing that they read moves.
pub proof fn the_same_reading_has_the_same_rows(a: Reading, b: Reading, rows: Seq<SidebarRow>)
    requires
        a.same_as(b),
        a.shows(rows),
    ensures
        b.shows(rows),
{
    let sorted = ordered(a.history.entries@, a.state.ordering);
    match a.state.grouping {
        SidebarGrouping::Updated => {
            let dates = choose|dates: Seq<SessionDateGroup>|
                periods_fit(sorted, a.today, dates) && rows == #[trigger] rows_of(
                    a.state,
                    a.history,
                    sorted,
                    dates,
                    a.now,
                );
            lemma_same_periods(a.state, b.state, sorted, dates, 6);
            assert(rows == rows_of(b.state, b.history, sorted, dates, b.now));
        },
        SidebarGrouping::Project => {
            lemma_same_recency(a, b);
            let sections = by_project(
                sorted,
                projectless_ids(a.history.projects@, a.history.projects@.len() as int),
            );
            lemma_same_projects(
                a,
                b,
                sections,
                timestamps_of(sorted, sorted.len() as int),
                sections.len() as int,
            );
        },
    }
}

/// Whether a snapshot is followed by another: it stays while the fingerprint
/// does, and is built anew where that has moved.
pub open spec fn follows(
    before: Seq<SidebarRow>,
    fingerprint: Option<u64>,
    reading: Reading,
    after: Seq<SidebarRow>,
) -> bool {
    if fingerprint == Some(reading.fingerprint()) {
        after == before
    } else {
        reading.shows(after)
    }
}

/// After any changes and any earlier calls the snapshot holds the rows of what
/// is there now. `readings` are what the calls found, `shown` what they left.
/// That is so wherever equal fingerprints of two calls in a row mean that what
/// the rows read is equal; two readings that share a fingerprint by chance are
/// left out.
pub proof fn the_snapshot_shows_what_is_there(
    readings: Seq<Reading>,
    shown: Seq<Seq<SidebarRow>>,
    i: int,
)
    requires
        readings.len() == shown.len(),
        0 <= i < readings.len(),
        readings[0].shows(shown[0]),
        forall|k: int|
            0 < k < readings.len() ==> follows(
                shown[k - 1],
                Some(readings[k - 1].fingerprint()),
                #[trigger] readings[k],
                shown[k],
            ),
        forall|k: int|
            0 < k < readings.len() && readings[k - 1].fingerprint() == (
            #[trigger] readings[k]).fingerprint() ==> readings[k - 1].same_as(readings[k]),
    ensures
        readings[i].shows(shown[i]),
    decreases i,
{
    if i > 0 {
        the_snapshot_shows_what_is_there(readings, shown, i - 1);
        assert(follows(
            shown[i - 1],
            Some(readings[i - 1].fingerprint()),
            readings[i],
            shown[i],
        ));
        if readings[i - 1].fingerprint() == readings[i].fingerprint() {
            the_same_reading_has_the_same_rows(readings[i - 1], readings[i], shown[i]);
        }
    }
}

/// The rows that stand in the sidebar.
pub struct SidebarSnapshot {
    pub rows: Vec<SidebarRow>,
}

/// The sidebar's rows, rebuilt only where what they are built from has moved.
pub fn sidebar_rows_cached(
    snapshot: &mut SidebarSnapshot,
    state: &mut SidebarState,
    history: &SidebarHistory,
    today: CalendarDate,
    now: u64,
)
    requires
        today.valid(),
        old(state).grouping == SidebarGrouping::Updated ==> entries_placeable(history.entries@),
    ensures
        ({
            let reading = Reading { state: *old(state), history: *history, today, now };
            &&& *final(state) == (SidebarState {
                rows_fingerprint: Some(reading.fingerprint()),
                ..*old(state)
            })
            &&& follows(
                old(snapshot).rows@,
                old(state).rows_fingerprint,
                reading,
                final(snapshot).rows@,
            )
        }),
{
    let fingerprint = sidebar_rows_fingerprint(state, history, today, now);
    if state.rows_fingerprint != Some(fingerprint) {
        snapshot.rows = sidebar_rows(state, history, today, now);
        state.rows_fingerprint = Some(fingerprint);
    }
}

} // verus!
