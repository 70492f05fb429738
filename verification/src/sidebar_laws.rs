//! What the sidebar is for: which sessions it lists, where and how, said of the
//! sessions, the projects and what the user folded or revealed.
use crate::calendar::SessionDateGroup;
use crate::i18n;
use crate::model::{Id, SessionStatus};
use crate::session::SessionView;
use crate::sidebar;
use crate::sidebar::{
    Reveal, SectionView, SidebarEntry, SidebarGroup, SidebarGrouping, SidebarHistory,
    SidebarOrdering, SidebarProject, SidebarRow, SidebarState,
};
use crate::sidebar_state;
use crate::sidebar_view;
use crate::sidebar_view::{ProjectInfo, RowContent, SessionMarkView};
use crate::streaming_laws;
use crate::text;
use vstd::prelude::*;

verus! {

// ── Entries ────────────────────────────────────────────────────────────────

/// When a session was last touched: at its last reply, or when it was begun.
pub open spec fn touched_at(session: SessionView) -> u64 {
    if session.last_reply_at is Some {
        session.last_reply_at->0
    } else {
        session.created_at
    }
}

/// The sidebar lists the sessions that have been started, in their order, each
/// by its identity, its project and when it was last touched.
pub proof fn started_sessions_are_listed(sessions: Seq<SessionView>, n: int)
    requires
        0 <= n <= sessions.len(),
    ensures
        sidebar::started_entries(sessions, n) == sessions.take(n).filter(
            |session: SessionView| session.started,
        ).map_values(
            |session: SessionView|
                SidebarEntry {
                    id: session.id,
                    project_id: session.project_id,
                    timestamp: touched_at(session),
                },
        ),
    decreases n,
{
    reveal(Seq::filter);
    let started = |session: SessionView| session.started;
    let entry = |session: SessionView|
        SidebarEntry {
            id: session.id,
            project_id: session.project_id,
            timestamp: touched_at(session),
        };
    if n > 0 {
        started_sessions_are_listed(sessions, n - 1);
        assert(sessions.take(n).drop_last() =~= sessions.take(n - 1));
        let above = sessions.take(n - 1).filter(started);
        assert(above.push(sessions[n - 1]).map_values(entry) =~= above.map_values(entry).push(
            entry(sessions[n - 1]),
        ));
    } else {
        assert(sessions.take(0).filter(started).map_values(entry)
            =~= Seq::<SidebarEntry>::empty());
    }
}

/// Newest first puts no entry above one that was touched later, and oldest
/// first none above one that was touched earlier.
pub proof fn entries_are_ordered_by_their_time(
    entries: Seq<SidebarEntry>,
    i: int,
    j: int,
)
    requires
        0 <= i < j < entries.len(),
    ensures
        sidebar::ordered(entries, SidebarOrdering::Newest).len() == entries.len(),
        sidebar::ordered(entries, SidebarOrdering::Oldest).len() == entries.len(),
        sidebar::ordered(entries, SidebarOrdering::Newest)[i].timestamp >= sidebar::ordered(
            entries,
            SidebarOrdering::Newest,
        )[j].timestamp,
        sidebar::ordered(entries, SidebarOrdering::Oldest)[i].timestamp <= sidebar::ordered(
            entries,
            SidebarOrdering::Oldest,
        )[j].timestamp,
{
    broadcast use vstd::seq_lib::group_to_multiset_ensures;

    let newest = sidebar::ordered(entries, SidebarOrdering::Newest);
    let oldest = sidebar::ordered(entries, SidebarOrdering::Oldest);
    sidebar::ordering_keeps_every_session(entries, SidebarOrdering::Newest);
    sidebar::ordering_keeps_every_session(entries, SidebarOrdering::Oldest);
    assert(newest.to_multiset().len() == newest.len());
    assert(oldest.to_multiset().len() == oldest.len());
    assert(entries.to_multiset().len() == entries.len());
    assert(sidebar::may_precede(newest[i], newest[j], SidebarOrdering::Newest));
    assert(sidebar::may_precede(oldest[i], oldest[j], SidebarOrdering::Oldest));
}

/// How long ago something was is told in the largest unit that has passed.
pub proof fn an_age_is_told_in_its_largest_unit(
    entries: Seq<(Seq<char>, Seq<char>)>,
    seconds: u64,
)
    ensures
        ({
            let age = sidebar::time_ago(entries, seconds);
            let s = seconds as nat;
            &&& s < 60 ==> age == i18n::plain(entries, "sidebar.just_now"@)
            &&& 60 <= s < 3600 ==> age == i18n::counted(entries, "sidebar.minutes_ago"@, s / 60)
            &&& 3600 <= s < 86400 ==> age == i18n::counted(
                entries,
                "sidebar.hours_ago"@,
                s / 3600,
            )
            &&& s >= 86400 ==> age == i18n::counted(entries, "sidebar.days_ago"@, s / 86400)
        }),
{
}

/// What a session's row shows: that it works, that it waits for detached work
/// or for the user, that it failed, or, at rest, how long ago it last replied.
pub proof fn a_row_shows_how_its_session_is(
    entries: Seq<(Seq<char>, Seq<char>)>,
    session: SessionView,
    now: u64,
)
    ensures
        ({
            let mark = sidebar_view::mark_of(entries, session, now);
            &&& mark == SessionMarkView::Spinner <==> session.status == SessionStatus::Connecting
                || session.status == SessionStatus::Working
            &&& mark == SessionMarkView::Hourglass <==> session.status
                == SessionStatus::Background
            &&& mark == SessionMarkView::Alert <==> session.status == SessionStatus::Waiting
            &&& mark == SessionMarkView::Cross <==> session.status == SessionStatus::Failed
            &&& session.status == SessionStatus::Idle && session.last_reply_at is None ==> mark
                == SessionMarkView::Age(None)
            &&& session.status == SessionStatus::Idle && session.last_reply_at is Some ==> mark
                == SessionMarkView::Age(
                Some(
                    sidebar::time_ago(
                        entries,
                        if now >= session.last_reply_at->0 {
                            (now - session.last_reply_at->0) as u64
                        } else {
                            0
                        },
                    ),
                ),
            )
        }),
{
}

// ── Sections ───────────────────────────────────────────────────────────────

/// The sessions of a project among the first entries.
pub open spec fn of_project(entries: Seq<SidebarEntry>, n: int, project_id: Id) -> Seq<Id> {
    entries.take(n).filter(|entry: SidebarEntry| entry.project_id == project_id).map_values(
        |entry: SidebarEntry| entry.id,
    )
}

proof fn lemma_of_project(entries: Seq<SidebarEntry>, n: int, project_id: Id)
    requires
        0 < n <= entries.len(),
    ensures
        of_project(entries, n, project_id) == if entries[n - 1].project_id == project_id {
            of_project(entries, n - 1, project_id).push(entries[n - 1].id)
        } else {
            of_project(entries, n - 1, project_id)
        },
{
    reveal(Seq::filter);
    let of = |entry: SidebarEntry| entry.project_id == project_id;
    let id = |entry: SidebarEntry| entry.id;
    assert(entries.take(n).drop_last() =~= entries.take(n - 1));
    let above = entries.take(n - 1).filter(of);
    assert(above.push(entries[n - 1]).map_values(id) =~= above.map_values(id).push(
        entries[n - 1].id,
    ));
}

proof fn lemma_section_at(sections: Seq<SectionView>, group: SidebarGroup)
    ensures
        ({
            let at = sidebar::section_at(sections, group);
            &&& -1 <= at < sections.len()
            &&& at >= 0 ==> sections[at].group == group
            &&& at < 0 ==> forall|k: int|
                0 <= k < sections.len() ==> (#[trigger] sections[k]).group != group
        }),
    decreases sections.len(),
{
    if sections.len() > 0 && sections.last().group != group {
        lemma_section_at(sections.drop_last(), group);
        assert forall|k: int| 0 <= k < sections.len() - 1 implies #[trigger] sections[k]
            == sections.drop_last()[k] by {}
    }
}

/// Whether a section is a project's, with all of its sessions in order.
pub open spec fn holds_its_project(
    section: SectionView,
    entries: Seq<SidebarEntry>,
    projectless: Set<Id>,
    n: int,
) -> bool {
    &&& section.group is Project
    &&& !projectless.contains(section.group->Project_0)
    &&& section.sessions == of_project(entries, n, section.group->Project_0)
    &&& section.sessions.len() > 0
}

/// Grouped by project, each project with sessions has one section, which holds
/// all of them in their order.
pub proof fn a_project_has_one_section(
    entries: Seq<SidebarEntry>,
    projectless: Set<Id>,
    n: int,
    project_id: Id,
)
    requires
        0 <= n <= entries.len(),
    ensures
        ({
            let sections = sidebar::project_sections(entries, projectless, n);
            &&& forall|k: int|
                0 <= k < sections.len() ==> holds_its_project(
                    #[trigger] sections[k],
                    entries,
                    projectless,
                    n,
                )
            &&& forall|j: int, k: int|
                0 <= j < k < sections.len() ==> (#[trigger] sections[j]).group != (
                #[trigger] sections[k]).group
            &&& !projectless.contains(project_id) && of_project(entries, n, project_id).len() > 0
                <==> exists|k: int|
                0 <= k < sections.len() && (#[trigger] sections[k]).group
                    == SidebarGroup::Project(project_id)
        }),
    decreases n,
{
    reveal(Seq::filter);
    if n == 0 {
        assert(entries.take(0).filter(
            |entry: SidebarEntry| entry.project_id == project_id,
        ).len() == 0);
    } else {
        a_project_has_one_section(entries, projectless, n - 1, project_id);
        let before = sidebar::project_sections(entries, projectless, n - 1);
        let sections = sidebar::project_sections(entries, projectless, n);
        let entry = entries[n - 1];
        let group = SidebarGroup::Project(entry.project_id);
        a_project_has_one_section(entries, projectless, n - 1, entry.project_id);
        lemma_section_at(before, group);
        lemma_of_project(entries, n, project_id);
        lemma_of_project(entries, n, entry.project_id);
        let at = sidebar::section_at(before, group);
        assert forall|k: int| 0 <= k < sections.len() implies holds_its_project(
            #[trigger] sections[k],
            entries,
            projectless,
            n,
        ) by {
            if k < before.len() {
                assert(holds_its_project(before[k], entries, projectless, n - 1));
                lemma_of_project(entries, n, before[k].group->Project_0);
                if k != at && before[k].group == group {
                    assert(at >= 0 && before[at].group == before[k].group);
                }
            } else {
                assert(of_project(entries, n - 1, entry.project_id).len() == 0);
                assert(seq![entry.id] =~= of_project(entries, n, entry.project_id));
            }
        }
        assert forall|k: int| 0 <= k < before.len() implies (#[trigger] sections[k]).group
            == before[k].group by {}
        if exists|k: int|
            0 <= k < before.len() && (#[trigger] before[k]).group == SidebarGroup::Project(
                project_id,
            ) {
            let k = choose|k: int|
                0 <= k < before.len() && (#[trigger] before[k]).group == SidebarGroup::Project(
                    project_id,
                );
            assert(sections[k].group == SidebarGroup::Project(project_id));
        }
        if !projectless.contains(entry.project_id) {
            if at >= 0 {
                assert(sections[at].group == group);
            } else {
                assert(sections[before.len() as int].group == group);
            }
        }
    }
}

/// The sessions without a project are those of projects that only hold such,
/// in their order; they have the last section where there are any.
pub proof fn loose_sessions_come_last(entries: Seq<SidebarEntry>, projectless: Set<Id>)
    ensures
        ({
            let loose = entries.filter(
                |entry: SidebarEntry| projectless.contains(entry.project_id),
            ).map_values(|entry: SidebarEntry| entry.id);
            let sections = sidebar::by_project(entries, projectless);
            let owned = sidebar::project_sections(entries, projectless, entries.len() as int);
            &&& loose.len() == 0 ==> sections == owned
            &&& loose.len() > 0 ==> {
                &&& sections.len() == owned.len() + 1
                &&& sections.drop_last() == owned
                &&& sections.last().group == SidebarGroup::Projectless
                &&& sections.last().sessions == loose
            }
        }),
{
    lemma_loose(entries, projectless, entries.len() as int);
    assert(entries.take(entries.len() as int) =~= entries);
    let sections = sidebar::by_project(entries, projectless);
    let owned = sidebar::project_sections(entries, projectless, entries.len() as int);
    if sections.len() > owned.len() {
        assert(sections.drop_last() =~= owned);
    }
}

proof fn lemma_loose(entries: Seq<SidebarEntry>, projectless: Set<Id>, n: int)
    requires
        0 <= n <= entries.len(),
    ensures
        sidebar::projectless_sessions(entries, projectless, n) == entries.take(n).filter(
            |entry: SidebarEntry| projectless.contains(entry.project_id),
        ).map_values(|entry: SidebarEntry| entry.id),
    decreases n,
{
    reveal(Seq::filter);
    let of = |entry: SidebarEntry| projectless.contains(entry.project_id);
    let id = |entry: SidebarEntry| entry.id;
    if n > 0 {
        lemma_loose(entries, projectless, n - 1);
        assert(entries.take(n).drop_last() =~= entries.take(n - 1));
        let above = entries.take(n - 1).filter(of);
        assert(above.push(entries[n - 1]).map_values(id) =~= above.map_values(id).push(
            entries[n - 1].id,
        ));
    } else {
        assert(entries.take(0).filter(of).map_values(id) =~= Seq::<Id>::empty());
    }
}

/// Whether a session was touched since a time.
pub open spec fn touched_since(timestamps: Map<Id, u64>, since: u64, id: Id) -> bool {
    timestamps.dom().contains(id) && timestamps[id] >= since
}

/// As long as nothing is revealed a project shows its recent sessions and no
/// others, in their order; as many older ones join them as are revealed.
pub proof fn recent_sessions_are_shown(
    sessions: Seq<Id>,
    timestamps: Map<Id, u64>,
    since: u64,
    revealed: nat,
    n: int,
)
    requires
        0 <= n <= sessions.len(),
    ensures
        ({
            let recent = sessions.take(n).filter(|id: Id| touched_since(timestamps, since, id));
            let older = sidebar::older_sessions(sessions, timestamps, since, n);
            let visible = sidebar::visible_sessions(sessions, timestamps, since, revealed, n);
            &&& sidebar::visible_sessions(sessions, timestamps, since, 0, n) == recent
            &&& older == n - recent.len()
            &&& visible.len() == recent.len() + if older < revealed {
                older
            } else {
                revealed
            }
        }),
    decreases n,
{
    reveal(Seq::filter);
    if n > 0 {
        recent_sessions_are_shown(sessions, timestamps, since, revealed, n - 1);
        assert(sessions.take(n).drop_last() =~= sessions.take(n - 1));
    }
}

/// A session counts as recent for three days.
pub proof fn a_session_is_recent_for_three_days(now: u64)
    ensures
        now >= 3 * 24 * 3600 ==> sidebar::cutoff(now) == now - 3 * 24 * 3600,
        now < 3 * 24 * 3600 ==> sidebar::cutoff(now) == 0,
{
}

/// When a session was touched is what its last entry says.
pub proof fn the_last_entry_tells_the_time(entries: Seq<SidebarEntry>, n: int, id: Id)
    requires
        0 <= n <= entries.len(),
    ensures
        ({
            let times = sidebar::timestamps_of(entries, n);
            &&& times.dom().contains(id) <==> exists|i: int|
                0 <= i < n && (#[trigger] entries[i]).id == id
            &&& forall|i: int|
                0 <= i < n && (#[trigger] entries[i]).id == id && (forall|k: int|
                    i < k < n ==> (#[trigger] entries[k]).id != id) ==> times[id]
                    == entries[i].timestamp
        }),
    decreases n,
{
    if n > 0 {
        the_last_entry_tells_the_time(entries, n - 1, id);
        if entries[n - 1].id != id {
            assert forall|i: int| 0 <= i < n && (#[trigger] entries[i]).id == id && (forall|k: int|
                i < k < n ==> (#[trigger] entries[k]).id != id) implies sidebar::timestamps_of(
                entries,
                n,
            )[id] == entries[i].timestamp by {
                assert(i < n - 1);
            }
        } else {
            assert(entries[n - 1].id == id);
        }
    }
}

/// A project only holds loose tasks where it says so.
pub proof fn loose_projects_say_so(projects: Seq<SidebarProject>, n: int, id: Id)
    requires
        0 <= n <= projects.len(),
    ensures
        sidebar::projectless_ids(projects, n).contains(id) <==> exists|i: int|
            0 <= i < n && (#[trigger] projects[i]).id == id && projects[i].projectless,
    decreases n,
{
    if n > 0 {
        loose_projects_say_so(projects, n - 1, id);
        if projects[n - 1].projectless && projects[n - 1].id == id {
            assert(projects[n - 1].id == id);
        }
    }
}

/// How many older sessions of a section are revealed is what was noted last of
/// it, and none without a note.
pub proof fn a_reveal_is_what_was_noted_last(
    revealed: Seq<Reveal>,
    group: SidebarGroup,
    note: Reveal,
)
    ensures
        sidebar::revealed_count(Seq::empty(), group) == 0,
        sidebar::revealed_count(revealed.push(note), group) == if note.group == group {
            note.count
        } else {
            sidebar::revealed_count(revealed, group)
        },
{
    assert(revealed.push(note).drop_last() =~= revealed);
}

// ── Rows ───────────────────────────────────────────────────────────────────

/// A section without sessions or an offer of more has no rows. Every other has
/// its header first and a space last; between them a folded one shows nothing,
/// and an open one its sessions in order, then the offer of more if there is
/// one.
pub proof fn a_section_shows_its_sessions(
    group: SidebarGroup,
    sessions: Seq<Id>,
    collapsed: bool,
    show_more: bool,
)
    ensures
        ({
            let rows = sidebar::group_rows(group, sessions, collapsed, show_more);
            let count = sessions.len() as int;
            let shown = count > 0 || show_more;
            &&& !shown ==> rows.len() == 0
            &&& shown ==> {
                &&& rows.len() >= 2
                &&& rows[0] == SidebarRow::Header(group)
                &&& rows.last() == SidebarRow::GroupSpacer
                &&& collapsed ==> rows.len() == 2
                &&& !collapsed ==> {
                    &&& rows.len() == count + 2 + if show_more {
                        1int
                    } else {
                        0
                    }
                    &&& forall|i: int|
                        0 <= i < count ==> rows[i + 1] == SidebarRow::Session(
                            #[trigger] sessions[i],
                        )
                    &&& show_more ==> rows[count + 1] == SidebarRow::ShowMore(group)
                }
            }
        }),
{
}

/// A period's section holds the sessions that fall into it, in their order.
pub proof fn a_period_holds_its_sessions(
    sorted: Seq<SidebarEntry>,
    dates: Seq<SessionDateGroup>,
    group: SessionDateGroup,
    n: int,
    id: Id,
)
    requires
        0 <= n <= sorted.len(),
        n <= dates.len(),
    ensures
        sidebar::sessions_in(sorted, dates, group, n).contains(id) <==> exists|i: int|
            0 <= i < n && (#[trigger] sorted[i]).id == id && dates[i] == group,
    decreases n,
{
    if n > 0 {
        a_period_holds_its_sessions(sorted, dates, group, n - 1, id);
        broadcast use vstd::seq_lib::lemma_seq_contains_after_push;

        if sorted[n - 1].id == id && dates[n - 1] == group {
            assert(sorted[n - 1].id == id);
        }
    }
}

/// The periods stand from the latest to the earliest, or the other way around
/// where the oldest sessions come first.
pub proof fn periods_follow_the_order()
    ensures
        sidebar::periods(SidebarOrdering::Newest).len() == 6,
        sidebar::periods(SidebarOrdering::Newest)[0] == SessionDateGroup::Today,
        sidebar::periods(SidebarOrdering::Newest)[1] == SessionDateGroup::Yesterday,
        sidebar::periods(SidebarOrdering::Newest)[2] == SessionDateGroup::ThisWeek,
        sidebar::periods(SidebarOrdering::Newest)[3] == SessionDateGroup::ThisMonth,
        sidebar::periods(SidebarOrdering::Newest)[4] == SessionDateGroup::ThisYear,
        sidebar::periods(SidebarOrdering::Newest)[5] == SessionDateGroup::More,
        sidebar::periods(SidebarOrdering::Oldest) == sidebar::periods(
            SidebarOrdering::Newest,
        ).reverse(),
{
    assert(sidebar::periods(SidebarOrdering::Oldest) =~= sidebar::periods(
        SidebarOrdering::Newest,
    ).reverse());
}

proof fn lemma_project_at(projects: Seq<SidebarProject>, id: Id, at: int)
    requires
        0 <= at <= projects.len(),
        at < projects.len() ==> projects[at].id == id,
        forall|k: int| 0 <= k < at ==> (#[trigger] projects[k]).id != id,
    ensures
        sidebar::project_at(projects, id) == if at < projects.len() {
            at
        } else {
            -1
        },
    decreases projects.len(),
{
    if projects.len() > 0 && at > 0 {
        assert(projects[0].id != id);
        let rest = projects.skip(1);
        assert forall|k: int| 0 <= k < at - 1 implies (#[trigger] rest[k]).id != id by {
            assert(projects[k + 1].id != id);
        }
        lemma_project_at(rest, id, at - 1);
    }
}

/// Without history the sidebar still has one section: today's; or that of the
/// selected project, of the first one, or of tasks without a project.
pub proof fn an_empty_sidebar_has_a_section(history: SidebarHistory, at: int)
    requires
        history.selected_project is Some ==> {
            &&& 0 <= at <= history.projects@.len()
            &&& at < history.projects@.len() ==> history.projects@[at].id
                == history.selected_project->0
            &&& forall|k: int|
                0 <= k < at ==> (#[trigger] history.projects@[k]).id
                    != history.selected_project->0
        },
        history.selected_project is None ==> at == history.projects@.len(),
    ensures
        sidebar::empty_group(SidebarGrouping::Updated, history) == SidebarGroup::Updated(
            SessionDateGroup::Today,
        ),
        ({
            let group = sidebar::empty_group(SidebarGrouping::Project, history);
            let none = history.projects@.len() == 0;
            let project = if at < history.projects@.len() {
                history.projects@[at]
            } else {
                history.projects@[0]
            };
            &&& none || project.projectless ==> group == SidebarGroup::Projectless
            &&& !none && !project.projectless ==> group == SidebarGroup::Project(project.id)
        }),
{
    if history.selected_project is Some {
        lemma_project_at(history.projects@, history.selected_project->0, at);
    }
}

// ── Folding, names and menus ───────────────────────────────────────────────

/// Folding a section folds that one and forgets what was revealed of it;
/// opening it opens that one. No other section moves, and the rows are built
/// again where something changed.
pub proof fn folding_moves_one_section(
    before: SidebarState,
    after: SidebarState,
    group: SidebarGroup,
    collapsed: bool,
    changed: bool,
    other: SidebarGroup,
)
    requires
        sidebar_state::fold_set(before, after, group, collapsed, changed),
    ensures
        after.collapsed@.contains(group) <==> collapsed,
        other != group ==> (after.collapsed@.contains(other) <==> before.collapsed@.contains(
            other,
        )),
        collapsed ==> sidebar::revealed_count(after.revealed@, group) == 0,
        other != group ==> sidebar::revealed_count(after.revealed@, other)
            == sidebar::revealed_count(before.revealed@, other),
        before.collapsed@.contains(group) != collapsed ==> changed,
        changed ==> after.rows_fingerprint is None,
        !changed ==> after.rows_fingerprint == before.rows_fingerprint,
        after.grouping == before.grouping && after.ordering == before.ordering,
        after.rename == before.rename,
{
    assert(after.folded(group) <==> collapsed);
    assert(after.reveals(group) == if collapsed {
        None
    } else {
        before.reveals(group)
    });
    if other != group {
        assert(after.folded(other) <==> before.folded(other));
        assert(after.reveals(other) == before.reveals(other));
    }
}

/// A session is renamed to what was typed, without the white space at its ends;
/// an empty name changes nothing, and no other session changes.
pub proof fn a_session_takes_its_new_name(
    sessions: Seq<SessionView>,
    at: int,
    input: Seq<char>,
)
    requires
        0 <= at < sessions.len(),
        forall|k: int| 0 <= k < at ==> (#[trigger] sessions[k]).id != sessions[at].id,
    ensures
        ({
            let after = sidebar_state::renamed(sessions, sessions[at].id, input);
            let name = text::trimmed(input);
            &&& after.len() == sessions.len()
            &&& forall|k: int|
                0 <= k < sessions.len() && k != at ==> #[trigger] after[k] == sessions[k]
            &&& name.len() == 0 ==> after == sessions
            &&& name.len() > 0 ==> after[at].title == Some(name) && after[at] == (SessionView {
                title: after[at].title,
                ..sessions[at]
            })
        }),
{
    streaming_laws::a_session_is_found_by_its_identity(sessions, sessions[at].id);
    let after = sidebar_state::renamed(sessions, sessions[at].id, input);
    assert(after[at] == SessionView { title: after[at].title, ..sessions[at] });
}

/// A row of the list stands for what it is; the second row carries the actions,
/// and a header is tied to the rows below it where they are open.
pub proof fn a_row_stands_for_what_it_is(rows: Seq<SidebarRow>, index: int)
    requires
        0 <= index,
    ensures
        ({
            let content = sidebar_view::content_at(rows, index);
            let below = index + 1 < rows.len() && (rows[index + 1] is Session || rows[index
                + 1] is ShowMore);
            &&& index >= rows.len() ==> content == RowContent::Nothing
            &&& index < rows.len() ==> match rows[index] {
                SidebarRow::Search => content == RowContent::Search,
                SidebarRow::Header(group) => content == RowContent::Header {
                    group,
                    first: index == 1,
                    has_expanded_children: below,
                },
                SidebarRow::Session(id) => content == RowContent::Session { id },
                SidebarRow::ShowMore(group) => content == RowContent::ShowMore { group },
                SidebarRow::GroupSpacer => content == RowContent::Spacer,
            }
        }),
{
}

proof fn lemma_choosable(
    projects: Seq<ProjectInfo>,
    selected: Option<Id>,
    wanted: bool,
    n: int,
    id: Id,
)
    requires
        0 <= n <= projects.len(),
    ensures
        ({
            let choices = sidebar_view::choosable(projects, selected, wanted, n);
            &&& (exists|i: int| 0 <= i < choices.len() && (#[trigger] choices[i]).id == id)
                <==> exists|i: int|
                0 <= i < n && (#[trigger] projects[i]).id == id && !projects[i].projectless && (
                selected == Some(id)) == wanted
            &&& forall|i: int|
                0 <= i < choices.len() ==> (#[trigger] choices[i]).selected == wanted && (selected
                    == Some(choices[i].id)) == wanted
        }),
    decreases n,
{
    if n > 0 {
        lemma_choosable(projects, selected, wanted, n - 1, id);
        let above = sidebar_view::choosable(projects, selected, wanted, n - 1);
        let choices = sidebar_view::choosable(projects, selected, wanted, n);
        if exists|i: int| 0 <= i < above.len() && (#[trigger] above[i]).id == id {
            let i = choose|i: int| 0 <= i < above.len() && (#[trigger] above[i]).id == id;
            assert(choices[i].id == id);
        }
        if choices.len() > above.len() {
            assert(choices[above.len() as int].id == projects[n - 1].id);
        }
        assert forall|i: int| 0 <= i < above.len() implies #[trigger] choices[i] == above[i] by {}
        if exists|i: int| 0 <= i < choices.len() && (#[trigger] choices[i]).id == id {
            let i = choose|i: int| 0 <= i < choices.len() && (#[trigger] choices[i]).id == id;
            if i < above.len() {
                assert(above[i].id == id);
            } else {
                assert(projects[n - 1].id == id);
            }
        }
        if exists|i: int|
            0 <= i < n && (#[trigger] projects[i]).id == id && !projects[i].projectless && (
            selected == Some(id)) == wanted {
            let i = choose|i: int|
                0 <= i < n && (#[trigger] projects[i]).id == id && !projects[i].projectless && (
                selected == Some(id)) == wanted;
            if i == n - 1 {
                assert(choices[above.len() as int].id == id);
            } else {
                assert(projects[i].id == id);
            }
        }
    }
}

/// The menu of projects offers every project that is one, the selected one
/// first and marked.
pub proof fn the_menu_offers_every_project(
    projects: Seq<ProjectInfo>,
    selected: Option<Id>,
    id: Id,
)
    ensures
        ({
            let choices = sidebar_view::project_choices(projects, selected);
            &&& (exists|i: int| 0 <= i < choices.len() && (#[trigger] choices[i]).id == id)
                <==> exists|i: int|
                0 <= i < projects.len() && (#[trigger] projects[i]).id == id
                    && !projects[i].projectless
            &&& forall|i: int|
                0 <= i < choices.len() ==> (#[trigger] choices[i]).selected == (selected == Some(
                    choices[i].id,
                ))
            &&& forall|i: int, j: int|
                0 <= i < j < choices.len() && (#[trigger] choices[j]).selected ==> (
                #[trigger] choices[i]).selected
        }),
{
    let n = projects.len() as int;
    lemma_choosable(projects, selected, true, n, id);
    lemma_choosable(projects, selected, false, n, id);
    let first = sidebar_view::choosable(projects, selected, true, n);
    let second = sidebar_view::choosable(projects, selected, false, n);
    let choices = sidebar_view::project_choices(projects, selected);
    assert forall|i: int| 0 <= i < choices.len() implies #[trigger] choices[i] == (if i
        < first.len() {
        first[i]
    } else {
        second[i - first.len()]
    }) by {}
    if exists|i: int| 0 <= i < first.len() && (#[trigger] first[i]).id == id {
        let i = choose|i: int| 0 <= i < first.len() && (#[trigger] first[i]).id == id;
        assert(choices[i].id == id);
    }
    if exists|i: int| 0 <= i < second.len() && (#[trigger] second[i]).id == id {
        let i = choose|i: int| 0 <= i < second.len() && (#[trigger] second[i]).id == id;
        assert(choices[i + first.len()].id == id);
    }
    if exists|i: int|
        0 <= i < projects.len() && (#[trigger] projects[i]).id == id && !projects[i].projectless {
        let i = choose|i: int|
            0 <= i < projects.len() && (#[trigger] projects[i]).id == id
                && !projects[i].projectless;
        assert((selected == Some(id)) == true || (selected == Some(id)) == false);
        assert(projects[i].id == id);
    }
}

} // verus!
