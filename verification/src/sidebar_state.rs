//! How the user arranges the sidebar: folding, revealing, grouping, ordering
//! and renaming, and the branch labels of its projects.
use crate::i18n;
use crate::i18n::Catalog;
use crate::model::Id;
use crate::session;
use crate::session::{AgentSession, SessionView};
use crate::sidebar;
use crate::sidebar::{
    Project, Reveal, SidebarEntry, SidebarGroup, SidebarGrouping, SidebarOrdering, SidebarProject,
    SidebarRow, SidebarState, BRANCH_SEED, SIDEBAR_PROJECT_REVEAL_BATCH,
};
use crate::streaming;
use crate::text;
use crate::transcript;
use crate::user_input::Table;
use vstd::prelude::*;

verus! {

/// Whether no section stands twice.
pub open spec fn distinct_groups(groups: Seq<SidebarGroup>) -> bool {
    forall|i: int, j: int|
        0 <= i < j < groups.len() ==> #[trigger] groups[i] != #[trigger] groups[j]
}

/// Whether no section is revealed twice.
pub open spec fn distinct_reveals(revealed: Seq<Reveal>) -> bool {
    forall|i: int, j: int|
        0 <= i < j < revealed.len() ==> (#[trigger] revealed[i]).group != (
        #[trigger] revealed[j]).group
}

impl SidebarState {
    /// No section stands twice in either list.
    pub open spec fn wf(self) -> bool {
        distinct_groups(self.collapsed@) && distinct_reveals(self.revealed@)
    }

    /// Whether a section is folded.
    pub open spec fn folded(self, group: SidebarGroup) -> bool {
        self.collapsed@.contains(group)
    }

    /// How many older sessions of a section have been revealed, where any.
    pub open spec fn reveals(self, group: SidebarGroup) -> Option<usize> {
        sidebar::reveal_of(self.revealed@, group)
    }

    /// The other settings are as they were.
    pub open spec fn keeps_settings(self, before: SidebarState) -> bool {
        &&& self.grouping == before.grouping
        &&& self.ordering == before.ordering
        &&& self.branch_scan_fingerprint == before.branch_scan_fingerprint
        &&& self.branch_scan_generation == before.branch_scan_generation
        &&& self.rename == before.rename
    }

    /// A sidebar that nobody has arranged yet.
    pub fn new(grouping: SidebarGrouping, ordering: SidebarOrdering) -> (state: SidebarState)
        ensures
            state.wf(),
            state.grouping == grouping,
            state.ordering == ordering,
            forall|group: SidebarGroup| !#[trigger] state.folded(group),
            forall|group: SidebarGroup| #[trigger] state.reveals(group) is None,
            state.rows_fingerprint is None,
            state.branch_scan_fingerprint is None,
            state.branch_scan_generation == 0,
            state.rename is None,
    {
        SidebarState {
            grouping,
            ordering,
            collapsed: Vec::new(),
            revealed: Vec::new(),
            rows_fingerprint: None,
            branch_scan_fingerprint: None,
            branch_scan_generation: 0,
            rename: None,
        }
    }
}

// ── Lists without repetition ───────────────────────────────────────────────

proof fn lemma_reveal_found(revealed: Seq<Reveal>, i: int)
    requires
        distinct_reveals(revealed),
        0 <= i < revealed.len(),
    ensures
        sidebar::reveal_of(revealed, revealed[i].group) == Some(revealed[i].count),
    decreases revealed.len(),
{
    if i < revealed.len() - 1 {
        let shorter = revealed.drop_last();
        assert(shorter[i] == revealed[i]);
        assert(revealed[i].group != revealed[revealed.len() - 1].group);
        lemma_reveal_found(shorter, i);
    }
}

proof fn lemma_reveal_absent(revealed: Seq<Reveal>, group: SidebarGroup)
    requires
        forall|k: int| 0 <= k < revealed.len() ==> (#[trigger] revealed[k]).group != group,
    ensures
        sidebar::reveal_of(revealed, group) is None,
    decreases revealed.len(),
{
    if revealed.len() > 0 {
        assert(revealed[revealed.len() - 1].group != group);
        let shorter = revealed.drop_last();
        assert forall|k: int| 0 <= k < shorter.len() implies (#[trigger] shorter[k]).group
            != group by {
            assert(shorter[k] == revealed[k]);
        }
        lemma_reveal_absent(shorter, group);
    }
}

proof fn lemma_reveal_places(revealed: Seq<Reveal>, group: SidebarGroup)
    ensures
        sidebar::reveal_of(revealed, group) is Some ==> exists|k: int|
            0 <= k < revealed.len() && (#[trigger] revealed[k]).group == group,
{
    if forall|k: int| 0 <= k < revealed.len() ==> (#[trigger] revealed[k]).group != group {
        lemma_reveal_absent(revealed, group);
    }
}

/// What two lists reveal of a section is the same where they hold the same
/// entries for it.
proof fn lemma_reveal_same(a: Seq<Reveal>, b: Seq<Reveal>, group: SidebarGroup)
    requires
        distinct_reveals(a),
        distinct_reveals(b),
        forall|k: int|
            0 <= k < a.len() && (#[trigger] a[k]).group == group ==> b.contains(a[k]),
        forall|k: int|
            0 <= k < b.len() && (#[trigger] b[k]).group == group ==> a.contains(b[k]),
    ensures
        sidebar::reveal_of(a, group) == sidebar::reveal_of(b, group),
{
    lemma_reveal_places(a, group);
    lemma_reveal_places(b, group);
    if sidebar::reveal_of(a, group) is Some {
        let k = choose|k: int| 0 <= k < a.len() && (#[trigger] a[k]).group == group;
        lemma_reveal_found(a, k);
        let j = choose|j: int| 0 <= j < b.len() && b[j] == a[k];
        lemma_reveal_found(b, j);
    } else if sidebar::reveal_of(b, group) is Some {
        let k = choose|k: int| 0 <= k < b.len() && (#[trigger] b[k]).group == group;
        lemma_reveal_found(b, k);
        let j = choose|j: int| 0 <= j < a.len() && a[j] == b[k];
        lemma_reveal_found(a, j);
    }
}

fn insert_group(groups: &mut Vec<SidebarGroup>, group: SidebarGroup) -> (added: bool)
    requires
        distinct_groups(old(groups)@),
    ensures
        distinct_groups(final(groups)@),
        added == !old(groups)@.contains(group),
        forall|g: SidebarGroup| #[trigger]
            final(groups)@.contains(g) <==> old(groups)@.contains(g) || g == group,
        !added ==> final(groups)@ == old(groups)@,
{
    if sidebar::has_group(groups, group) {
        return false;
    }
    let ghost before = groups@;
    groups.push(group);
    assert forall|g: SidebarGroup| #[trigger] groups@.contains(g) <==> before.contains(g) || g
        == group by {
        if before.contains(g) {
            let k = choose|k: int| 0 <= k < before.len() && before[k] == g;
            assert(groups@[k] == g);
        }
        if g == group {
            assert(groups@[before.len() as int] == g);
        }
    }
    true
}

fn remove_group(groups: &mut Vec<SidebarGroup>, group: SidebarGroup) -> (removed: bool)
    requires
        distinct_groups(old(groups)@),
    ensures
        distinct_groups(final(groups)@),
        removed == old(groups)@.contains(group),
        forall|g: SidebarGroup| #[trigger]
            final(groups)@.contains(g) <==> old(groups)@.contains(g) && g != group,
        !removed ==> final(groups)@ == old(groups)@,
{
    let ghost before = groups@;
    let mut i: usize = 0;
    while i < groups.len()
        invariant
            i <= groups@.len(),
            groups@ == before,
            before == old(groups)@,
            distinct_groups(before),
            forall|k: int| 0 <= k < i ==> #[trigger] before[k] != group,
        decreases groups@.len() - i,
    {
        if groups[i] == group {
            assert(before[i as int] == group);
            groups.remove(i);
            assert forall|g: SidebarGroup| #[trigger] groups@.contains(g) <==> before.contains(g)
                && g != group by {
                if before.contains(g) && g != group {
                    let k = choose|k: int| 0 <= k < before.len() && before[k] == g;
                    if k < i {
                        assert(groups@[k] == g);
                    } else {
                        assert(groups@[k - 1] == g);
                    }
                }
                if groups@.contains(g) {
                    let k = choose|k: int| 0 <= k < groups@.len() && groups@[k] == g;
                    if k < i {
                        assert(before[k] == g);
                    } else {
                        assert(before[k + 1] == g);
                    }
                }
            }
            return true;
        }
        i += 1;
    }
    false
}

fn remove_reveal(revealed: &mut Vec<Reveal>, group: SidebarGroup) -> (removed: bool)
    requires
        distinct_reveals(old(revealed)@),
    ensures
        distinct_reveals(final(revealed)@),
        removed == (sidebar::reveal_of(old(revealed)@, group) is Some),
        forall|g: SidebarGroup| #[trigger]
            sidebar::reveal_of(final(revealed)@, g) == (if g == group {
                None
            } else {
                sidebar::reveal_of(old(revealed)@, g)
            }),
        !removed ==> final(revealed)@ == old(revealed)@,
{
    let ghost before = revealed@;
    match sidebar::find_reveal(revealed, group) {
        Some(i) => {
            revealed.remove(i);
            proof {
                assert forall|g: SidebarGroup| #[trigger]
                    sidebar::reveal_of(revealed@, g) == (if g == group {
                        None
                    } else {
                        sidebar::reveal_of(before, g)
                    }) by {
                    if g == group {
                        assert forall|k: int| 0 <= k < revealed@.len() implies (
                        #[trigger] revealed@[k]).group != group by {
                            if k < i {
                                assert(revealed@[k] == before[k]);
                            } else {
                                assert(revealed@[k] == before[k + 1]);
                            }
                        }
                        lemma_reveal_absent(revealed@, group);
                    } else {
                        assert forall|k: int|
                            0 <= k < revealed@.len() && (#[trigger] revealed@[k]).group
                                == g implies before.contains(revealed@[k]) by {
                            if k < i {
                                assert(revealed@[k] == before[k]);
                            } else {
                                assert(revealed@[k] == before[k + 1]);
                            }
                        }
                        assert forall|k: int|
                            0 <= k < before.len() && (#[trigger] before[k]).group
                                == g implies revealed@.contains(before[k]) by {
                            if k < i {
                                assert(revealed@[k] == before[k]);
                            } else {
                                assert(revealed@[k - 1] == before[k]);
                            }
                        }
                        lemma_reveal_same(revealed@, before, g);
                    }
                }
            }
            true
        },
        None => false,
    }
}

// ── Folding ────────────────────────────────────────────────────────────────

/// Reveal the next batch of a section's older sessions.
pub fn show_more_project_sessions(state: &mut SidebarState, group: SidebarGroup)
    requires
        old(state).wf(),
    ensures
        final(state).wf(),
        forall|g: SidebarGroup| #[trigger]
            final(state).reveals(g) == (if g == group {
                let shown = sidebar::revealed_count(old(state).revealed@, group);
                Some(
                    if shown + SIDEBAR_PROJECT_REVEAL_BATCH <= usize::MAX {
                        (shown + SIDEBAR_PROJECT_REVEAL_BATCH) as usize
                    } else {
                        usize::MAX
                    },
                )
            } else {
                old(state).reveals(g)
            }),
        final(state).collapsed@ == old(state).collapsed@,
        final(state).rows_fingerprint is None,
        final(state).keeps_settings(*old(state)),
{
    let ghost before = state.revealed@;
    match sidebar::find_reveal(&state.revealed, group) {
        Some(i) => {
            let count: usize = state.revealed[i].count.saturating_add(SIDEBAR_PROJECT_REVEAL_BATCH);
            state.revealed[i].count = count;
            proof {
                assert(distinct_reveals(state.revealed@)) by {
                    assert forall|a: int, b: int| 0 <= a < b < state.revealed@.len() implies (
                    #[trigger] state.revealed@[a]).group != (
                    #[trigger] state.revealed@[b]).group by {
                        assert(before[a].group != before[b].group);
                    }
                }
                assert forall|g: SidebarGroup| g != group implies #[trigger] sidebar::reveal_of(
                    state.revealed@,
                    g,
                ) == sidebar::reveal_of(before, g) by {
                    assert forall|k: int|
                        0 <= k < before.len() && (#[trigger] before[k]).group
                            == g implies state.revealed@.contains(before[k]) by {
                        assert(state.revealed@[k] == before[k]);
                    }
                    assert forall|k: int|
                        0 <= k < state.revealed@.len() && (#[trigger] state.revealed@[k]).group
                            == g implies before.contains(state.revealed@[k]) by {
                        assert(state.revealed@[k] == before[k]);
                    }
                    lemma_reveal_same(state.revealed@, before, g);
                }
                lemma_reveal_found(state.revealed@, i as int);
            }
        },
        None => {
            state.revealed.push(Reveal { group, count: SIDEBAR_PROJECT_REVEAL_BATCH });
            assert(state.revealed@.drop_last() =~= before);
        },
    }
    state.rows_fingerprint = None;
}

/// What follows a change of a section's fold.
pub open spec fn fold_set(
    before: SidebarState,
    after: SidebarState,
    group: SidebarGroup,
    collapsed: bool,
    changed: bool,
) -> bool {
    &&& after.wf()
    &&& forall|g: SidebarGroup| #[trigger]
        after.folded(g) <==> if g == group {
            collapsed
        } else {
            before.folded(g)
        }
    &&& forall|g: SidebarGroup| #[trigger]
        after.reveals(g) == (if g == group && collapsed {
            None
        } else {
            before.reveals(g)
        })
    &&& changed == (before.folded(group) != collapsed || collapsed && before.reveals(group) is Some)
    &&& after.rows_fingerprint == (if changed {
        None
    } else {
        before.rows_fingerprint
    })
    &&& after.keeps_settings(before)
}

/// Fold a section, which hides again what had been revealed in it, or unfold
/// it. Whether anything changed.
pub fn set_sidebar_group_collapsed(
    state: &mut SidebarState,
    group: SidebarGroup,
    collapsed: bool,
) -> (changed: bool)
    requires
        old(state).wf(),
    ensures
        fold_set(*old(state), *final(state), group, collapsed, changed),
{
    let ghost before = *state;
    let collapse_changed = if collapsed {
        insert_group(&mut state.collapsed, group)
    } else {
        remove_group(&mut state.collapsed, group)
    };
    let reveal_reset = collapsed && remove_reveal(&mut state.revealed, group);
    if collapse_changed || reveal_reset {
        state.rows_fingerprint = None;
    }
    assert forall|g: SidebarGroup| #[trigger] state.folded(g) <==> if g == group {
        collapsed
    } else {
        before.folded(g)
    } by {
        assert(state.collapsed@.contains(g) == state.folded(g));
    }
    assert forall|g: SidebarGroup| #[trigger] state.reveals(g) == (if g == group && collapsed {
        None
    } else {
        before.reveals(g)
    }) by {
        assert(sidebar::reveal_of(state.revealed@, g) == state.reveals(g));
    }
    collapse_changed || reveal_reset
}

/// Fold a section that is open, and open one that is folded.
pub fn toggle_sidebar_group(state: &mut SidebarState, group: SidebarGroup) -> (changed: bool)
    requires
        old(state).wf(),
    ensures
        changed,
        fold_set(*old(state), *final(state), group, !old(state).folded(group), true),
{
    let collapsed = !sidebar::has_group(&state.collapsed, group);
    set_sidebar_group_collapsed(state, group, collapsed)
}

/// Opening a folded section again leaves every section as it was, and hides
/// what had been revealed in this one.
pub proof fn folding_and_opening_comes_back(
    before: SidebarState,
    folded: SidebarState,
    opened: SidebarState,
    group: SidebarGroup,
    changed: bool,
    reopened: bool,
)
    requires
        !before.folded(group),
        fold_set(before, folded, group, true, changed),
        fold_set(folded, opened, group, false, reopened),
    ensures
        changed && reopened,
        forall|g: SidebarGroup| #[trigger] opened.folded(g) == before.folded(g),
        forall|g: SidebarGroup|
            #[trigger] opened.reveals(g) == (if g == group {
                None
            } else {
                before.reveals(g)
            }),
{
    assert forall|g: SidebarGroup| #[trigger] opened.folded(g) == before.folded(g) by {
        assert(folded.folded(g) == folded.folded(g));
    }
    assert forall|g: SidebarGroup|
        #[trigger] opened.reveals(g) == (if g == group {
            None
        } else {
            before.reveals(g)
        }) by {
        assert(folded.reveals(g) == folded.reveals(g));
    }
}

/// Whether the rows hold a section's header.
pub open spec fn has_header(rows: Seq<SidebarRow>, group: SidebarGroup) -> bool {
    rows.contains(SidebarRow::Header(group))
}

/// Fold every section that stands in the sidebar. Whether anything changed.
pub fn collapse_all_sidebar_groups(state: &mut SidebarState, rows: &Vec<SidebarRow>) -> (changed:
    bool)
    requires
        old(state).wf(),
    ensures
        final(state).wf(),
        forall|g: SidebarGroup| #[trigger]
            final(state).folded(g) <==> old(state).folded(g) || has_header(rows@, g),
        forall|g: SidebarGroup| #[trigger]
            final(state).reveals(g) == (if has_header(rows@, g) {
                None
            } else {
                old(state).reveals(g)
            }),
        changed == exists|g: SidebarGroup| #[trigger]
            has_header(rows@, g) && (!old(state).folded(g) || old(state).reveals(g) is Some),
        final(state).rows_fingerprint == (if changed {
            None
        } else {
            old(state).rows_fingerprint
        }),
        final(state).keeps_settings(*old(state)),
{
    let ghost before = *state;
    let mut changed: bool = false;
    let mut i: usize = 0;
    while i < rows.len()
        invariant
            i <= rows@.len(),
            before == *old(state),
            state.wf(),
            forall|g: SidebarGroup| #[trigger]
                state.folded(g) <==> before.folded(g) || has_header(rows@.take(i as int), g),
            forall|g: SidebarGroup| #[trigger]
                state.reveals(g) == (if has_header(rows@.take(i as int), g) {
                    None
                } else {
                    before.reveals(g)
                }),
            changed == exists|g: SidebarGroup| #[trigger]
                has_header(rows@.take(i as int), g) && (!before.folded(g) || before.reveals(
                    g,
                ) is Some),
            state.rows_fingerprint == before.rows_fingerprint,
            state.keeps_settings(before),
        decreases rows@.len() - i,
    {
        let ghost above = rows@.take(i as int);
        let ghost here = rows@.take(i + 1);
        let ghost earlier = *state;
        assert(here =~= above.push(rows@[i as int]));
        assert forall|g: SidebarGroup| #[trigger] has_header(here, g) <==> has_header(above, g)
            || rows@[i as int] == SidebarRow::Header(g) by {
            if has_header(above, g) {
                let k = choose|k: int|
                    0 <= k < above.len() && above[k] == SidebarRow::Header(g);
                assert(here[k] == SidebarRow::Header(g));
            }
            if rows@[i as int] == SidebarRow::Header(g) {
                assert(here[i as int] == SidebarRow::Header(g));
            }
        }
        if let SidebarRow::Header(group) = rows[i] {
            let folded = insert_group(&mut state.collapsed, group);
            let reset = remove_reveal(&mut state.revealed, group);
            let ghost was_changed = changed;
            changed = changed || folded || reset;
            proof {
                assert(has_header(here, group));
                assert forall|g: SidebarGroup| #[trigger] state.folded(g) <==> before.folded(g)
                    || has_header(here, g) by {
                    assert(state.collapsed@.contains(g) == state.folded(g));
                    assert(earlier.folded(g) == earlier.collapsed@.contains(g));
                }
                assert forall|g: SidebarGroup| #[trigger] state.reveals(g) == (if has_header(
                    here,
                    g,
                ) {
                    None
                } else {
                    before.reveals(g)
                }) by {
                    assert(sidebar::reveal_of(state.revealed@, g) == state.reveals(g));
                    assert(earlier.reveals(g) == sidebar::reveal_of(earlier.revealed@, g));
                }
                assert(folded == !earlier.folded(group));
                assert(reset == (earlier.reveals(group) is Some));
                assert(changed == exists|g: SidebarGroup| #[trigger]
                    has_header(here, g) && (!before.folded(g) || before.reveals(g) is Some)) by {
                    if was_changed {
                        let g = choose|g: SidebarGroup| #[trigger]
                            has_header(above, g) && (!before.folded(g) || before.reveals(
                                g,
                            ) is Some);
                        assert(has_header(here, g));
                    }
                }
            }
        } else {
            assert(changed == exists|g: SidebarGroup| #[trigger]
                has_header(here, g) && (!before.folded(g) || before.reveals(g) is Some)) by {
                if changed {
                    let g = choose|g: SidebarGroup| #[trigger]
                        has_header(above, g) && (!before.folded(g) || before.reveals(g) is Some);
                    assert(has_header(here, g));
                }
            }
        }
        i += 1;
    }
    assert(rows@.take(i as int) =~= rows@);
    let ghost last = *state;
    if changed {
        state.rows_fingerprint = None;
    }
    assert forall|g: SidebarGroup| #[trigger] state.folded(g) <==> before.folded(g) || has_header(
        rows@,
        g,
    ) by {
        assert(last.folded(g) == state.folded(g));
    }
    assert forall|g: SidebarGroup| #[trigger] state.reveals(g) == (if has_header(rows@, g) {
        None
    } else {
        before.reveals(g)
    }) by {
        assert(last.reveals(g) == state.reveals(g));
    }
    changed
}

// ── Preferences ────────────────────────────────────────────────────────────

/// Group by something else. Whether that is a change: the sidebar then goes
/// back to its top and looks branch labels up again.
pub fn set_sidebar_grouping(state: &mut SidebarState, grouping: SidebarGrouping) -> (changed: bool)
    ensures
        changed == (old(state).grouping != grouping),
        *final(state) == (if changed {
            SidebarState {
                grouping,
                rows_fingerprint: None,
                branch_scan_fingerprint: None,
                branch_scan_generation: old(state).branch_scan_generation.wrapping_add(1),
                ..*old(state)
            }
        } else {
            *old(state)
        }),
{
    if state.grouping == grouping {
        return false;
    }
    state.grouping = grouping;
    state.rows_fingerprint = None;
    state.branch_scan_fingerprint = None;
    state.branch_scan_generation = state.branch_scan_generation.wrapping_add(1);
    true
}

/// Order the other way. Whether that is a change: the sidebar then goes back
/// to its top.
pub fn set_sidebar_ordering(state: &mut SidebarState, ordering: SidebarOrdering) -> (changed: bool)
    ensures
        changed == (old(state).ordering != ordering),
        *final(state) == (if changed {
            SidebarState { ordering, rows_fingerprint: None, ..*old(state) }
        } else {
            *old(state)
        }),
{
    if state.ordering == ordering {
        return false;
    }
    state.ordering = ordering;
    state.rows_fingerprint = None;
    true
}

// ── Titles ─────────────────────────────────────────────────────────────────

/// The title shown for a session.
pub open spec fn shown_title(entries: Seq<(Seq<char>, Seq<char>)>, session: SessionView) -> Seq<
    char,
> {
    match session.title {
        Some(title) => title,
        None => i18n::plain(entries, "session.new_task"@),
    }
}

/// The title shown for a session: its own, or that of a new task.
pub fn localized_session_title(catalog: &Catalog, session: &AgentSession) -> (title: String)
    ensures
        title@ == shown_title(catalog@, session@),
{
    match &session.title {
        Some(title) => title.clone(),
        None => catalog.text("session.new_task"),
    }
}

/// Start to edit a session's title; the text to edit, if there is such a
/// session.
pub fn begin_session_rename(
    state: &mut SidebarState,
    catalog: &Catalog,
    sessions: &Vec<AgentSession>,
    session_id: Id,
) -> (title: Option<String>)
    ensures
        match streaming::session_index(session::sessions_view(sessions@), session_id) {
            Some(i) => text::text_view(title) == Some(
                shown_title(catalog@, session::sessions_view(sessions@)[i]),
            ) && *final(state) == (SidebarState { rename: Some(session_id), ..*old(state) }),
            None => title is None && *final(state) == *old(state),
        },
{
    match streaming::find_session(sessions, session_id) {
        Some(i) => {
            assert(session::sessions_view(sessions@)[i as int] == sessions@[i as int]@);
            state.rename = Some(session_id);
            Some(localized_session_title(catalog, &sessions[i]))
        },
        None => None,
    }
}

/// The sessions after an edit of a title has been accepted.
pub open spec fn renamed(sessions: Seq<SessionView>, session_id: Id, input: Seq<char>) -> Seq<
    SessionView,
> {
    let title = text::trimmed(input);
    match streaming::session_index(sessions, session_id) {
        Some(i) => if title.len() > 0 && sessions[i].title != Some(title) {
            sessions.update(i, SessionView { title: Some(title), ..sessions[i] })
        } else {
            sessions
        },
        None => sessions,
    }
}

/// Accept the edited title: without the whitespace around it, and not where
/// nothing remains. Whether a title changed and is to be saved.
pub fn commit_session_rename(
    state: &mut SidebarState,
    sessions: &mut Vec<AgentSession>,
    input: &str,
) -> (saved: bool)
    ensures
        *final(state) == (SidebarState { rename: None, ..*old(state) }),
        session::sessions_view(final(sessions)@) == (match old(state).rename {
            Some(session_id) => renamed(
                session::sessions_view(old(sessions)@),
                session_id,
                input@,
            ),
            None => session::sessions_view(old(sessions)@),
        }),
        saved == (session::sessions_view(final(sessions)@) != session::sessions_view(
            old(sessions)@,
        )),
{
    let ghost before = session::sessions_view(sessions@);
    let session_id = match state.rename {
        Some(session_id) => session_id,
        None => {
            return false;
        },
    };
    state.rename = None;
    let title = text::trim(input);
    if title.as_str().is_empty() {
        return false;
    }
    match streaming::find_session(sessions, session_id) {
        Some(i) => {
            assert(before[i as int] == sessions@[i as int]@);
            let unchanged = match &sessions[i].title {
                Some(current) => text::same(current.as_str(), title.as_str()),
                None => false,
            };
            if unchanged {
                return false;
            }
            let ghost shown = title@;
            sessions[i].title = Some(title);
            proof {
                let after = session::sessions_view(sessions@);
                assert(after =~= before.update(
                    i as int,
                    SessionView { title: Some(shown), ..before[i as int] },
                ));
                assert(after[i as int].title != before[i as int].title);
            }
            true
        },
        None => false,
    }
}

/// Give the edit of a title up. Whether one was going on.
pub fn cancel_session_rename(state: &mut SidebarState) -> (cancelled: bool)
    ensures
        cancelled == (old(state).rename is Some),
        *final(state) == (SidebarState { rename: None, ..*old(state) }),
{
    let cancelled = state.rename.is_some();
    state.rename = None;
    cancelled
}

/// Whether the sidebar marks a session: the one being opened, or else the
/// selected one.
pub fn sidebar_session_selected(
    selected_session: Option<Id>,
    pending_session: Option<Id>,
    session_id: Id,
) -> (selected: bool)
    ensures
        selected == (match pending_session {
            Some(pending) => pending == session_id,
            None => selected_session == Some(session_id),
        }),
{
    match pending_session {
        Some(pending) => pending == session_id,
        None => selected_session == Some(session_id),
    }
}

// ── Branch labels ──────────────────────────────────────────────────────────

/// The first `n` local sessions mixed into the fingerprint.
pub open spec fn local_mixed(fingerprint: u64, local: Seq<SidebarEntry>, n: int) -> u64
    decreases n,
{
    if n <= 0 {
        fingerprint
    } else {
        transcript::mixed_all(
            transcript::mixed_all(
                local_mixed(fingerprint, local, n - 1),
                transcript::id_words(local[n - 1].id),
            ),
            transcript::id_words(local[n - 1].project_id),
        )
    }
}

/// The first `n` projects mixed into the fingerprint.
pub open spec fn project_ids_mixed(fingerprint: u64, projects: Seq<SidebarProject>, n: int) -> u64
    decreases n,
{
    if n <= 0 {
        fingerprint
    } else {
        transcript::mixed_all(
            project_ids_mixed(fingerprint, projects, n - 1),
            transcript::id_words(projects[n - 1].id),
        )
    }
}

/// A number for everything branch labels are looked up for.
pub open spec fn branch_fingerprint(local: Seq<SidebarEntry>, projects: Seq<SidebarProject>) -> u64 {
    project_ids_mixed(
        local_mixed(BRANCH_SEED, local, local.len() as int),
        projects,
        projects.len() as int,
    )
}

fn mix_branches(local: &Vec<SidebarEntry>, projects: &Vec<SidebarProject>) -> (fingerprint: u64)
    ensures
        fingerprint == branch_fingerprint(local@, projects@),
{
    let mut mixed: u64 = BRANCH_SEED;
    let mut i: usize = 0;
    while i < local.len()
        invariant
            i <= local@.len(),
            mixed == local_mixed(BRANCH_SEED, local@, i as int),
        decreases local@.len() - i,
    {
        mixed = transcript::mix_uuid(mixed, local[i].id);
        mixed = transcript::mix_uuid(mixed, local[i].project_id);
        i += 1;
    }
    let ghost base = mixed;
    let mut j: usize = 0;
    while j < projects.len()
        invariant
            j <= projects@.len(),
            mixed == project_ids_mixed(base, projects@, j as int),
        decreases projects@.len() - j,
    {
        mixed = transcript::mix_uuid(mixed, projects[j].id);
        j += 1;
    }
    mixed
}

/// Whether branch labels have to be looked up again, and under which
/// generation: only while the sidebar groups by project, and only where the
/// started sessions in project directories or the projects have changed.
pub fn begin_branch_scan(
    state: &mut SidebarState,
    local: &Vec<SidebarEntry>,
    projects: &Vec<SidebarProject>,
) -> (generation: Option<u64>)
    ensures
        ({
            let fingerprint = branch_fingerprint(local@, projects@);
            if old(state).grouping != SidebarGrouping::Project || old(
                state,
            ).branch_scan_fingerprint == Some(fingerprint) {
                generation is None && *final(state) == *old(state)
            } else {
                let next = old(state).branch_scan_generation.wrapping_add(1);
                generation == Some(next) && *final(state) == (SidebarState {
                    branch_scan_fingerprint: Some(fingerprint),
                    branch_scan_generation: next,
                    ..*old(state)
                })
            }
        }),
{
    if state.grouping != SidebarGrouping::Project {
        return None;
    }
    let fingerprint = mix_branches(local, projects);
    if state.branch_scan_fingerprint == Some(fingerprint) {
        return None;
    }
    state.branch_scan_fingerprint = Some(fingerprint);
    let generation: u64 = state.branch_scan_generation.wrapping_add(1);
    state.branch_scan_generation = generation;
    Some(generation)
}

/// Whether a session runs in a project's own directory.
pub open spec fn has_local(local: Seq<SidebarEntry>, project_id: Id) -> bool {
    exists|i: int| 0 <= i < local.len() && (#[trigger] local[i]).project_id == project_id
}

/// The paths of the first `n` projects whose branch is shown: ordinary ones
/// with a local session. No path stands twice.
pub open spec fn branch_paths(
    local: Seq<SidebarEntry>,
    projects: Seq<Project>,
    listed: Seq<SidebarProject>,
    n: int,
) -> Seq<Seq<char>>
    decreases n,
{
    if n <= 0 {
        Seq::empty()
    } else {
        let paths = branch_paths(local, projects, listed, n - 1);
        let path = projects[n - 1].path@;
        if has_local(local, projects[n - 1].id) && !listed[n - 1].projectless && !paths.contains(
            path,
        ) {
            paths.push(path)
        } else {
            paths
        }
    }
}

fn runs_locally(local: &Vec<SidebarEntry>, project_id: Id) -> (found: bool)
    ensures
        found == has_local(local@, project_id),
{
    let mut i: usize = 0;
    while i < local.len()
        invariant
            i <= local@.len(),
            forall|k: int| 0 <= k < i ==> (#[trigger] local@[k]).project_id != project_id,
        decreases local@.len() - i,
    {
        if local[i].project_id == project_id {
            return true;
        }
        i += 1;
    }
    false
}

fn has_text(texts: &Vec<String>, wanted: &str) -> (found: bool)
    ensures
        found == text::texts_view(texts@).contains(wanted@),
{
    let ghost views = text::texts_view(texts@);
    let mut i: usize = 0;
    while i < texts.len()
        invariant
            i <= texts@.len(),
            views == text::texts_view(texts@),
            forall|k: int| 0 <= k < i ==> #[trigger] views[k] != wanted@,
        decreases texts@.len() - i,
    {
        assert(views[i as int] == texts@[i as int]@);
        if text::same(texts[i].as_str(), wanted) {
            return true;
        }
        i += 1;
    }
    false
}

/// The paths whose branch is to be looked up.
pub fn branch_scan_paths(
    local: &Vec<SidebarEntry>,
    projects: &Vec<Project>,
    listed: &Vec<SidebarProject>,
) -> (paths: Vec<String>)
    requires
        projects@.len() == listed@.len(),
    ensures
        text::texts_view(paths@) == branch_paths(
            local@,
            projects@,
            listed@,
            projects@.len() as int,
        ),
{
    let mut paths: Vec<String> = Vec::new();
    let mut i: usize = 0;
    assert(text::texts_view(paths@) =~= Seq::<Seq<char>>::empty());
    while i < projects.len()
        invariant
            i <= projects@.len(),
            projects@.len() == listed@.len(),
            text::texts_view(paths@) == branch_paths(local@, projects@, listed@, i as int),
        decreases projects@.len() - i,
    {
        let ghost before = text::texts_view(paths@);
        let project = &projects[i];
        if runs_locally(local, project.id) && !listed[i].projectless && !has_text(
            &paths,
            project.path.as_str(),
        ) {
            paths.push(project.path.clone());
            assert(text::texts_view(paths@) =~= before.push(project.path@));
        }
        i += 1;
    }
    paths
}

/// Have the branches looked up again, and take no label of a look-up that is
/// under way.
pub fn invalidate_workspace_queries(state: &mut SidebarState)
    ensures
        *final(state) == (SidebarState {
            branch_scan_fingerprint: None,
            branch_scan_generation: old(state).branch_scan_generation.wrapping_add(1),
            ..*old(state)
        }),
{
    state.branch_scan_fingerprint = None;
    state.branch_scan_generation = state.branch_scan_generation.wrapping_add(1);
}

/// Whether looked-up labels are still wanted: not where a newer look-up has
/// begun.
pub fn accepts_branch_labels(state: &SidebarState, generation: u64) -> (accepted: bool)
    ensures
        accepted == (state.branch_scan_generation == generation),
{
    state.branch_scan_generation == generation
}

/// Note the branch that a directory is on, or that it is on none.
pub fn cache_sidebar_branch_label(labels: &mut Table<String>, path: &str, branch: &Option<String>)
    requires
        old(labels).wf(),
    ensures
        final(labels).wf(),
        match branch {
            Some(branch) => if branch@.len() > 0 {
                final(labels)@ == old(labels)@.insert(path@, *branch)
            } else {
                final(labels)@ == old(labels)@.remove(path@)
            },
            None => final(labels)@ == old(labels)@.remove(path@),
        },
{
    match branch {
        Some(branch) => {
            if branch.as_str().is_empty() {
                labels.remove(path);
            } else {
                labels.insert(text::owned(path), branch.clone());
            }
        },
        None => {
            labels.remove(path);
        },
    }
}

} // verus!
