//! What the sidebar and the window's header show, and where the list of
//! sessions scrolls to.
use crate::i18n;
use crate::i18n::Catalog;
use crate::layout;
use crate::layout::{Length, PIXEL};
use crate::model::{Id, ProviderKind, SessionStatus};
use crate::session;
use crate::session::{AgentSession, SessionView};
use crate::sidebar;
use crate::sidebar::{
    Project, SidebarGroup, SidebarGrouping, SidebarOrdering, SidebarRow, SidebarState,
};
use crate::sidebar_state;
use crate::streaming;
use crate::text;
use vstd::prelude::*;

verus! {

// ── Heights ────────────────────────────────────────────────────────────────

/// The height of the search row with the gap below it.
pub const SIDEBAR_SEARCH_HEIGHT: Length = 42 * PIXEL;

/// The height of a section's header with the gap below it.
pub const SIDEBAR_HEADER_HEIGHT: Length = 30 * PIXEL;

/// The height of a session's row with the gap below it.
pub const SIDEBAR_SESSION_ROW_HEIGHT: Length = 33 * PIXEL;

/// The height of the row that shows more.
pub const SIDEBAR_SHOW_MORE_ROW_HEIGHT: Length = 30 * PIXEL;

/// The space below a section.
pub const SIDEBAR_GROUP_SPACER_HEIGHT: Length = 10 * PIXEL;

/// How far a session's row is indented below its project.
pub const SIDEBAR_GROUP_CHILD_PADDING: Length = 28 * PIXEL;

/// How far a session's row is indented otherwise.
pub const SIDEBAR_CHILD_PADDING: Length = 8 * PIXEL;

/// The height of a row.
pub open spec fn row_height(row: SidebarRow) -> Length {
    match row {
        SidebarRow::Search => SIDEBAR_SEARCH_HEIGHT,
        SidebarRow::Header(_) => SIDEBAR_HEADER_HEIGHT,
        SidebarRow::Session(_) => SIDEBAR_SESSION_ROW_HEIGHT,
        SidebarRow::ShowMore(_) => SIDEBAR_SHOW_MORE_ROW_HEIGHT,
        SidebarRow::GroupSpacer => SIDEBAR_GROUP_SPACER_HEIGHT,
    }
}

/// The height of a row.
pub fn sidebar_row_height(row: SidebarRow) -> (height: Length)
    ensures
        height == row_height(row),
{
    match row {
        SidebarRow::Search => SIDEBAR_SEARCH_HEIGHT,
        SidebarRow::Header(_) => SIDEBAR_HEADER_HEIGHT,
        SidebarRow::Session(_) => SIDEBAR_SESSION_ROW_HEIGHT,
        SidebarRow::ShowMore(_) => SIDEBAR_SHOW_MORE_ROW_HEIGHT,
        SidebarRow::GroupSpacer => SIDEBAR_GROUP_SPACER_HEIGHT,
    }
}

/// The height of the rows from one to another, both counted.
pub open spec fn rows_height(rows: Seq<SidebarRow>, from: int, to: int) -> int
    decreases to - from + 1,
{
    if from > to {
        0
    } else {
        row_height(rows[from]) + rows_height(rows, from + 1, to)
    }
}

/// A place in a list: a row, and how much of it is above the viewport.
#[derive(Clone, Copy, Debug, PartialEq, Eq, Structural)]
pub struct ListOffset {
    pub item_ix: usize,
    pub offset_in_item: Length,
}

/// The lowest row, at or above `at`, from which the rows down to the target
/// fill the viewport, or the first row where they never do.
pub open spec fn top_row(rows: Seq<SidebarRow>, target: int, at: int, viewport: Length) -> int
    decreases at,
{
    if at <= 0 || rows_height(rows, at, target) >= viewport {
        at
    } else {
        top_row(rows, target, at - 1, viewport)
    }
}

/// Where the list scrolls to so that the target's bottom edge meets that of
/// the viewport.
pub open spec fn bottom_aligned(rows: Seq<SidebarRow>, target: int, viewport: Length) -> (int, int) {
    let top = top_row(rows, target, target, viewport);
    let height = rows_height(rows, top, target);
    (
        top,
        if height > viewport {
            height - viewport
        } else {
            0
        },
    )
}

/// Where a session stands among the rows.
pub open spec fn session_row(rows: Seq<SidebarRow>, session_id: Id) -> int
    decreases rows.len(),
{
    if rows.len() == 0 {
        -1
    } else if rows[0] == SidebarRow::Session(session_id) {
        0
    } else if session_row(rows.skip(1), session_id) < 0 {
        -1
    } else {
        session_row(rows.skip(1), session_id) + 1
    }
}

/// The first row of a session.
pub fn sidebar_session_row_index(rows: &Vec<SidebarRow>, session_id: Id) -> (index: Option<usize>)
    ensures
        match index {
            Some(i) => i < rows@.len() && session_row(rows@, session_id) == i && rows@[i as int]
                == SidebarRow::Session(session_id),
            None => session_row(rows@, session_id) < 0 && !rows@.contains(
                SidebarRow::Session(session_id),
            ),
        },
{
    let mut i: usize = 0;
    assert(rows@.skip(0) =~= rows@);
    while i < rows.len()
        invariant
            i <= rows@.len(),
            session_row(rows@, session_id) == (if session_row(
                rows@.skip(i as int),
                session_id,
            ) < 0 {
                -1
            } else {
                session_row(rows@.skip(i as int), session_id) + i
            }),
            forall|k: int| 0 <= k < i ==> #[trigger] rows@[k] != SidebarRow::Session(session_id),
        decreases rows@.len() - i,
    {
        assert(rows@.skip(i as int)[0] == rows@[i as int]);
        assert(rows@.skip(i as int).skip(1) =~= rows@.skip(i + 1));
        if let SidebarRow::Session(id) = rows[i] {
            if id == session_id {
                return Some(i);
            }
        }
        i += 1;
    }
    None
}

/// Where the list scrolls to so that the target's bottom edge meets that of
/// the viewport.
pub fn sidebar_bottom_aligned_offset(
    rows: &Vec<SidebarRow>,
    target: usize,
    viewport_height: Length,
) -> (offset: ListOffset)
    requires
        target < rows@.len(),
        layout::sane(viewport_height),
    ensures
        offset.item_ix == bottom_aligned(rows@, target as int, viewport_height).0,
        offset.offset_in_item == bottom_aligned(rows@, target as int, viewport_height).1,
{
    let mut item_ix: usize = target;
    let mut height: Length = sidebar_row_height(rows[target]);
    assert(rows_height(rows@, target + 1, target as int) == 0);
    while item_ix > 0 && height < viewport_height
        invariant
            item_ix <= target < rows@.len(),
            layout::sane(viewport_height),
            height == rows_height(rows@, item_ix as int, target as int),
            0 <= height,
            height <= SIDEBAR_SEARCH_HEIGHT || height < viewport_height + SIDEBAR_SEARCH_HEIGHT,
            top_row(rows@, target as int, target as int, viewport_height) == top_row(
                rows@,
                target as int,
                item_ix as int,
                viewport_height,
            ),
        decreases item_ix,
    {
        item_ix -= 1;
        height = sidebar_row_height(rows[item_ix]) + height;
    }
    ListOffset {
        item_ix,
        offset_in_item: if height > viewport_height {
            height - viewport_height
        } else {
            0
        },
    }
}

proof fn lemma_top_row_fills(rows: Seq<SidebarRow>, target: int, at: int, viewport: Length)
    requires
        0 <= at <= target,
        rows_height(rows, 0, target) >= viewport,
    ensures
        0 <= top_row(rows, target, at, viewport) <= at,
        rows_height(rows, top_row(rows, target, at, viewport), target) >= viewport,
    decreases at,
{
    if at > 0 && rows_height(rows, at, target) < viewport {
        lemma_top_row_fills(rows, target, at - 1, viewport);
    }
}

/// Aligned to the bottom, the rows down to the target fill the viewport
/// exactly, wherever there are enough of them.
pub proof fn the_target_ends_at_the_viewport(
    rows: Seq<SidebarRow>,
    target: int,
    viewport: Length,
)
    requires
        0 <= target < rows.len(),
        rows_height(rows, 0, target) >= viewport,
    ensures
        ({
            let offset = bottom_aligned(rows, target, viewport);
            rows_height(rows, offset.0, target) - offset.1 == viewport
        }),
{
    lemma_top_row_fills(rows, target, target, viewport);
}

/// How the list brings a row into view.
#[derive(Clone, Copy, Debug, PartialEq, Eq, Structural)]
pub enum RevealStep {
    /// The row is fully in view, or the list has no size yet.
    Stay,
    /// The list knows the row's place and scrolls as little as it must.
    Nearest { index: usize },
    /// The list scrolls to this place.
    Scroll { offset: ListOffset },
}

/// How the list brings a row into view. `item` is where the row lies, if it
/// has been measured; rows that have not been measured have fixed heights, so
/// that a lower one is aligned to the viewport's bottom.
pub fn reveal_sidebar_list_row(
    rows: &Vec<SidebarRow>,
    index: usize,
    viewport_top: Length,
    viewport_height: Length,
    item: Option<(Length, Length)>,
    scroll_top: usize,
) -> (step: RevealStep)
    requires
        index < rows@.len(),
        layout::sane(viewport_top),
        layout::sane(viewport_height),
    ensures
        step == if viewport_height <= 0 {
            RevealStep::Stay
        } else {
            match item {
                Some((top, bottom)) => if top >= viewport_top && bottom <= viewport_top
                    + viewport_height {
                    RevealStep::Stay
                } else {
                    RevealStep::Nearest { index }
                },
                None => if index <= scroll_top {
                    RevealStep::Scroll {
                        offset: ListOffset { item_ix: index, offset_in_item: 0 },
                    }
                } else {
                    let (top, clipped) = bottom_aligned(rows@, index as int, viewport_height);
                    RevealStep::Scroll {
                        offset: ListOffset {
                            item_ix: top as usize,
                            offset_in_item: clipped as Length,
                        },
                    }
                },
            }
        },
{
    if viewport_height <= 0 {
        return RevealStep::Stay;
    }
    match item {
        Some((top, bottom)) => {
            if top >= viewport_top && bottom <= viewport_top + viewport_height {
                RevealStep::Stay
            } else {
                RevealStep::Nearest { index }
            }
        },
        None => {
            if index <= scroll_top {
                RevealStep::Scroll { offset: ListOffset { item_ix: index, offset_in_item: 0 } }
            } else {
                RevealStep::Scroll {
                    offset: sidebar_bottom_aligned_offset(rows, index, viewport_height),
                }
            }
        },
    }
}

// ── The list on screen ─────────────────────────────────────────────────────

/// How the list on screen follows new rows.
#[derive(Clone, Copy, Debug, PartialEq, Eq, Structural)]
pub enum SidebarSync {
    Unchanged,
    /// Start over with this many rows.
    Reset { count: usize },
    /// Replace the rows from `start` up to `end` by this many.
    Splice { start: usize, end: usize, count: usize },
}

/// Whether a count is the number of leading rows that two lists share.
pub open spec fn shares(a: Seq<SidebarRow>, b: Seq<SidebarRow>, count: int) -> bool {
    &&& 0 <= count <= a.len()
    &&& count <= b.len()
    &&& a.take(count) == b.take(count)
    &&& count < a.len() && count < b.len() ==> a[count] != b[count]
}

fn shared_rows(a: &Vec<SidebarRow>, b: &Vec<SidebarRow>) -> (count: usize)
    ensures
        shares(a@, b@, count as int),
{
    let mut i: usize = 0;
    while i < a.len() && i < b.len() && a[i] == b[i]
        invariant
            i <= a@.len(),
            i <= b@.len(),
            forall|k: int| 0 <= k < i ==> #[trigger] a@[k] == b@[k],
        decreases a@.len() - i,
    {
        i += 1;
    }
    assert(a@.take(i as int) =~= b@.take(i as int));
    i
}

/// Bring the list on screen in line with new rows. Only what follows the rows
/// that are still the same is replaced, so that the rest keeps its place.
pub fn sync_sidebar_rows(cached: &mut Vec<SidebarRow>, rows: &Vec<SidebarRow>) -> (sync:
    SidebarSync)
    ensures
        final(cached)@ == rows@,
        match sync {
            SidebarSync::Unchanged => old(cached)@ == rows@,
            SidebarSync::Reset { count } => old(cached)@.len() == 0 && rows@.len() > 0 && count
                == rows@.len(),
            SidebarSync::Splice { start, end, count } => {
                &&& old(cached)@.len() > 0
                &&& old(cached)@ != rows@
                &&& shares(old(cached)@, rows@, start as int)
                &&& end == old(cached)@.len()
                &&& start + count == rows@.len()
                &&& old(cached)@.take(start as int) + rows@.skip(start as int) == rows@
            },
        },
{
    let prefix: usize = shared_rows(cached, rows);
    let old_count: usize = cached.len();
    if prefix == old_count && prefix == rows.len() {
        assert(cached@.take(prefix as int) =~= cached@);
        assert(rows@.take(prefix as int) =~= rows@);
        return SidebarSync::Unchanged;
    }
    let ghost before = cached@;
    let mut copy: Vec<SidebarRow> = Vec::new();
    let mut i: usize = 0;
    while i < rows.len()
        invariant
            i <= rows@.len(),
            copy@ == rows@.take(i as int),
        decreases rows@.len() - i,
    {
        copy.push(rows[i]);
        assert(copy@ =~= rows@.take(i + 1));
        i += 1;
    }
    assert(rows@.take(i as int) =~= rows@);
    *cached = copy;
    proof {
        if before == rows@ {
            assert(prefix < before.len() && prefix < rows@.len());
        }
        assert(before.take(prefix as int) + rows@.skip(prefix as int) =~= rows@) by {
            assert(rows@.take(prefix as int) + rows@.skip(prefix as int) =~= rows@);
        }
    }
    if old_count == 0 {
        SidebarSync::Reset { count: rows.len() }
    } else {
        SidebarSync::Splice { start: prefix, end: old_count, count: rows.len() - prefix }
    }
}

/// What stands at a place of the list.
#[derive(Clone, Copy, Debug, PartialEq, Eq, Structural)]
pub enum RowContent {
    Nothing,
    Search,
    Header { group: SidebarGroup, first: bool, has_expanded_children: bool },
    Session { id: Id },
    ShowMore { group: SidebarGroup },
    Spacer,
}

/// What stands at a place of the list.
pub open spec fn content_at(rows: Seq<SidebarRow>, index: int) -> RowContent {
    if index >= rows.len() {
        RowContent::Nothing
    } else {
        match rows[index] {
            SidebarRow::Search => RowContent::Search,
            SidebarRow::Header(group) => RowContent::Header {
                group,
                first: index == 1,
                has_expanded_children: index + 1 < rows.len() && (rows[index + 1] is Session
                    || rows[index + 1] is ShowMore),
            },
            SidebarRow::Session(id) => RowContent::Session { id },
            SidebarRow::ShowMore(group) => RowContent::ShowMore { group },
            SidebarRow::GroupSpacer => RowContent::Spacer,
        }
    }
}

/// What stands at a place of the list: nothing beyond its end. A header knows
/// whether it carries the actions and whether rows of its own follow.
pub fn sidebar_row(rows: &Vec<SidebarRow>, index: usize) -> (content: RowContent)
    ensures
        content == content_at(rows@, index as int),
{
    let count: usize = rows.len();
    if index >= count {
        return RowContent::Nothing;
    }
    match rows[index] {
        SidebarRow::Search => RowContent::Search,
        SidebarRow::Header(group) => {
            let has_expanded_children = index + 1 < count && match rows[index + 1] {
                SidebarRow::Session(_) => true,
                SidebarRow::ShowMore(_) => true,
                _ => false,
            };
            RowContent::Header { group, first: index == 1, has_expanded_children }
        },
        SidebarRow::Session(id) => RowContent::Session { id },
        SidebarRow::ShowMore(group) => RowContent::ShowMore { group },
        SidebarRow::GroupSpacer => RowContent::Spacer,
    }
}

// ── A section's header ─────────────────────────────────────────────────────

/// What a section's header shows.
pub struct GroupHeader {
    /// The name that its parts react to being hovered by.
    pub name: String,
    pub toggle_id: String,
    /// The button for a new task, which project sections have.
    pub compose_id: Option<String>,
    pub label: String,
    /// The folder in front, which project sections have.
    pub folder_icon: Option<String>,
    /// The arrow behind, which periods have; whether it points to the side.
    pub chevron_turned: Option<bool>,
    pub shows_actions: bool,
    /// The line down to the section's rows.
    pub shows_guide: bool,
}

pub struct GroupHeaderView {
    pub name: Seq<char>,
    pub toggle_id: Seq<char>,
    pub compose_id: Option<Seq<char>>,
    pub label: Seq<char>,
    pub folder_icon: Option<Seq<char>>,
    pub chevron_turned: Option<bool>,
    pub shows_actions: bool,
    pub shows_guide: bool,
}

impl View for GroupHeader {
    type V = GroupHeaderView;

    open spec fn view(&self) -> GroupHeaderView {
        GroupHeaderView {
            name: self.name@,
            toggle_id: self.toggle_id@,
            compose_id: text::text_view(self.compose_id),
            label: self.label@,
            folder_icon: text::text_view(self.folder_icon),
            chevron_turned: self.chevron_turned,
            shows_actions: self.shows_actions,
            shows_guide: self.shows_guide,
        }
    }
}

/// The name of a project, if there is one.
pub open spec fn project_name(projects: Seq<Project>, id: Id) -> Option<Seq<char>>
    decreases projects.len(),
{
    if projects.len() == 0 {
        None
    } else if projects[0].id == id {
        Some(projects[0].name@)
    } else {
        project_name(projects.skip(1), id)
    }
}

/// What a section is called.
pub open spec fn group_label(
    entries: Seq<(Seq<char>, Seq<char>)>,
    projects: Seq<Project>,
    group: SidebarGroup,
) -> Seq<char> {
    match group {
        SidebarGroup::Updated(period) => i18n::plain(entries, period.label_key()),
        SidebarGroup::Project(id) => match project_name(projects, id) {
            Some(name) => name,
            None => i18n::plain(entries, "project.no_project_name"@),
        },
        SidebarGroup::Projectless => i18n::plain(entries, "project.no_project_name"@),
    }
}

fn find_project_name(projects: &Vec<Project>, id: Id) -> (name: Option<String>)
    ensures
        text::text_view(name) == project_name(projects@, id),
{
    let mut i: usize = 0;
    assert(projects@.skip(0) =~= projects@);
    while i < projects.len()
        invariant
            i <= projects@.len(),
            project_name(projects@, id) == project_name(projects@.skip(i as int), id),
        decreases projects@.len() - i,
    {
        assert(projects@.skip(i as int)[0] == projects@[i as int]);
        assert(projects@.skip(i as int).skip(1) =~= projects@.skip(i + 1));
        if projects[i].id == id {
            return Some(projects[i].name.clone());
        }
        i += 1;
    }
    None
}

/// What a section is called.
pub fn sidebar_group_label(catalog: &Catalog, projects: &Vec<Project>, group: SidebarGroup) -> (label:
    String)
    ensures
        label@ == group_label(catalog@, projects@, group),
{
    match group {
        SidebarGroup::Updated(period) => period.label(catalog),
        SidebarGroup::Project(id) => {
            match find_project_name(projects, id) {
                Some(name) => name,
                None => catalog.text("project.no_project_name"),
            }
        },
        SidebarGroup::Projectless => catalog.text("project.no_project_name"),
    }
}

/// What a section's header shows.
pub open spec fn header_shown(
    entries: Seq<(Seq<char>, Seq<char>)>,
    projects: Seq<Project>,
    group: SidebarGroup,
    collapsed: bool,
    first: bool,
    has_expanded_children: bool,
) -> GroupHeaderView {
    let by_project = !(group is Updated);
    GroupHeaderView {
        name: "sidebar-group-header-"@ + group.key(),
        toggle_id: "sidebar-group-toggle-"@ + group.key(),
        compose_id: if by_project {
            Some("sidebar-group-compose-"@ + group.key())
        } else {
            None
        },
        label: group_label(entries, projects, group),
        folder_icon: if !by_project {
            None
        } else if collapsed {
            Some("icons/folder.svg"@)
        } else {
            Some("icons/folder-open.svg"@)
        },
        chevron_turned: if by_project {
            None
        } else {
            Some(collapsed)
        },
        shows_actions: first,
        shows_guide: by_project && has_expanded_children,
    }
}

/// What a section's header shows. Sections of projects have a folder, a
/// button for a new task and a line down to their rows; periods have an
/// arrow.
pub fn sidebar_group_header(
    catalog: &Catalog,
    state: &SidebarState,
    projects: &Vec<Project>,
    group: SidebarGroup,
    first: bool,
    has_expanded_children: bool,
) -> (header: GroupHeader)
    ensures
        header@ == header_shown(
            catalog@,
            projects@,
            group,
            state.folded(group),
            first,
            has_expanded_children,
        ),
{
    let collapsed = sidebar::has_group(&state.collapsed, group);
    let key = group.element_key();
    let by_project = match group {
        SidebarGroup::Updated(_) => false,
        _ => true,
    };
    GroupHeader {
        name: text::prefixed("sidebar-group-header-", key.as_str()),
        toggle_id: text::prefixed("sidebar-group-toggle-", key.as_str()),
        compose_id: if by_project {
            Some(text::prefixed("sidebar-group-compose-", key.as_str()))
        } else {
            None
        },
        label: sidebar_group_label(catalog, projects, group),
        folder_icon: if !by_project {
            None
        } else if collapsed {
            Some(text::owned("icons/folder.svg"))
        } else {
            Some(text::owned("icons/folder-open.svg"))
        },
        chevron_turned: if by_project {
            None
        } else {
            Some(collapsed)
        },
        shows_actions: first,
        shows_guide: by_project && has_expanded_children,
    }
}

/// What a key does on a section's header.
#[derive(Clone, Copy, Debug, PartialEq, Eq, Structural)]
pub enum HeaderKey {
    Toggle,
    Collapse,
    Expand,
    Ignored,
}

/// Whether a key presses what has the focus.
pub open spec fn presses(key: Seq<char>) -> bool {
    key == "enter"@ || key == "space"@
}

/// Whether a key presses what has the focus.
pub fn key_presses(key: &str) -> (result: bool)
    ensures
        result == presses(key@),
{
    text::same(key, "enter") || text::same(key, "space")
}

/// What a key does on a section's header: enter and space turn the fold
/// around, left folds and right opens where that changes something.
pub fn group_header_key(key: &str, collapsed: bool) -> (action: HeaderKey)
    ensures
        action == if presses(key@) {
            HeaderKey::Toggle
        } else if key@ == "left"@ && !collapsed {
            HeaderKey::Collapse
        } else if key@ == "right"@ && collapsed {
            HeaderKey::Expand
        } else {
            HeaderKey::Ignored
        },
{
    if key_presses(key) {
        HeaderKey::Toggle
    } else if !collapsed && text::same(key, "left") {
        HeaderKey::Collapse
    } else if collapsed && text::same(key, "right") {
        HeaderKey::Expand
    } else {
        HeaderKey::Ignored
    }
}

/// What the button for a new task in a section opens.
#[derive(Clone, Copy, Debug, PartialEq, Eq, Structural)]
pub enum GroupCompose {
    SelectProject(Id),
    Projectless,
    Nothing,
}

/// What the button for a new task in a section opens: a task in its project,
/// or one without a project; a period opens none.
pub fn open_new_task_for_sidebar_group(group: SidebarGroup) -> (compose: GroupCompose)
    ensures
        compose == match group {
            SidebarGroup::Project(id) => GroupCompose::SelectProject(id),
            SidebarGroup::Projectless => GroupCompose::Projectless,
            SidebarGroup::Updated(_) => GroupCompose::Nothing,
        },
{
    match group {
        SidebarGroup::Project(id) => GroupCompose::SelectProject(id),
        SidebarGroup::Projectless => GroupCompose::Projectless,
        SidebarGroup::Updated(_) => GroupCompose::Nothing,
    }
}

// ── A session's row ────────────────────────────────────────────────────────

/// What stands at the end of a session's row.
pub enum SessionMark {
    Spinner,
    Hourglass,
    Alert,
    Cross,
    /// How long ago the agent last replied, if ever.
    Age(Option<String>),
}

pub enum SessionMarkView {
    Spinner,
    Hourglass,
    Alert,
    Cross,
    Age(Option<Seq<char>>),
}

impl View for SessionMark {
    type V = SessionMarkView;

    open spec fn view(&self) -> SessionMarkView {
        match self {
            SessionMark::Spinner => SessionMarkView::Spinner,
            SessionMark::Hourglass => SessionMarkView::Hourglass,
            SessionMark::Alert => SessionMarkView::Alert,
            SessionMark::Cross => SessionMarkView::Cross,
            SessionMark::Age(age) => SessionMarkView::Age(text::text_view(*age)),
        }
    }
}

/// What a session's row shows.
pub struct SessionItem {
    pub row_id: String,
    pub menu_id: String,
    pub rename_field_id: String,
    pub title: String,
    /// Whether the title is being edited: the row then takes no clicks.
    pub renaming: bool,
    pub selected: bool,
    pub mark: SessionMark,
    pub left_padding: Length,
    /// The line of the project's section.
    pub shows_guide: bool,
}

pub struct SessionItemView {
    pub row_id: Seq<char>,
    pub menu_id: Seq<char>,
    pub rename_field_id: Seq<char>,
    pub title: Seq<char>,
    pub renaming: bool,
    pub selected: bool,
    pub mark: SessionMarkView,
    pub left_padding: Length,
    pub shows_guide: bool,
}

impl View for SessionItem {
    type V = SessionItemView;

    open spec fn view(&self) -> SessionItemView {
        SessionItemView {
            row_id: self.row_id@,
            menu_id: self.menu_id@,
            rename_field_id: self.rename_field_id@,
            title: self.title@,
            renaming: self.renaming,
            selected: self.selected,
            mark: self.mark@,
            left_padding: self.left_padding,
            shows_guide: self.shows_guide,
        }
    }
}

/// What stands at the end of a session's row: a live turn is spoken for by a
/// spinner, the other states by their icons, a settled session by the age of
/// its last reply.
pub open spec fn mark_of(
    entries: Seq<(Seq<char>, Seq<char>)>,
    session: SessionView,
    now: u64,
) -> SessionMarkView {
    match session.status {
        SessionStatus::Connecting => SessionMarkView::Spinner,
        SessionStatus::Working => SessionMarkView::Spinner,
        SessionStatus::Background => SessionMarkView::Hourglass,
        SessionStatus::Waiting => SessionMarkView::Alert,
        SessionStatus::Failed => SessionMarkView::Cross,
        SessionStatus::Idle => SessionMarkView::Age(sidebar::reply_age(entries, session, now)),
    }
}

/// What a session's row shows.
pub open spec fn item_shown(
    entries: Seq<(Seq<char>, Seq<char>)>,
    state: SidebarState,
    session: SessionView,
    selected_session: Option<Id>,
    pending_session: Option<Id>,
    now: u64,
) -> SessionItemView {
    let by_project = state.grouping == SidebarGrouping::Project;
    let id = sidebar::id_text(session.id);
    SessionItemView {
        row_id: "session-"@ + id,
        menu_id: "session-menu-"@ + id,
        rename_field_id: "session-rename-field-"@ + id,
        title: sidebar_state::shown_title(entries, session),
        renaming: state.rename == Some(session.id),
        selected: match pending_session {
            Some(pending) => pending == session.id,
            None => selected_session == Some(session.id),
        },
        mark: mark_of(entries, session, now),
        left_padding: if by_project {
            SIDEBAR_GROUP_CHILD_PADDING
        } else {
            SIDEBAR_CHILD_PADDING
        },
        shows_guide: by_project,
    }
}

fn session_mark(catalog: &Catalog, session: &AgentSession, now: u64) -> (mark: SessionMark)
    ensures
        mark@ == mark_of(catalog@, session@, now),
{
    match session.status {
        SessionStatus::Connecting => SessionMark::Spinner,
        SessionStatus::Working => SessionMark::Spinner,
        SessionStatus::Background => SessionMark::Hourglass,
        SessionStatus::Waiting => SessionMark::Alert,
        SessionStatus::Failed => SessionMark::Cross,
        SessionStatus::Idle => SessionMark::Age(
            sidebar::session_time_label(catalog, session, now),
        ),
    }
}

/// What a session's row shows, if there is such a session.
pub fn sidebar_session_item(
    catalog: &Catalog,
    state: &SidebarState,
    sessions: &Vec<AgentSession>,
    session_id: Id,
    selected_session: Option<Id>,
    pending_session: Option<Id>,
    now: u64,
) -> (item: Option<SessionItem>)
    ensures
        match streaming::session_index(session::sessions_view(sessions@), session_id) {
            Some(i) => item matches Some(item) && item@ == item_shown(
                catalog@,
                *state,
                session::sessions_view(sessions@)[i],
                selected_session,
                pending_session,
                now,
            ),
            None => item is None,
        },
{
    match streaming::find_session(sessions, session_id) {
        Some(i) => {
            let session = &sessions[i];
            assert(session::sessions_view(sessions@)[i as int] == session@);
            let by_project = state.grouping == SidebarGrouping::Project;
            let id = sidebar::format_id(session_id);
            Some(
                SessionItem {
                    row_id: text::prefixed("session-", id.as_str()),
                    menu_id: text::prefixed("session-menu-", id.as_str()),
                    rename_field_id: text::prefixed("session-rename-field-", id.as_str()),
                    title: sidebar_state::localized_session_title(catalog, session),
                    renaming: state.rename == Some(session_id),
                    selected: sidebar_state::sidebar_session_selected(
                        selected_session,
                        pending_session,
                        session_id,
                    ),
                    mark: session_mark(catalog, session, now),
                    left_padding: if by_project {
                        SIDEBAR_GROUP_CHILD_PADDING
                    } else {
                        SIDEBAR_CHILD_PADDING
                    },
                    shows_guide: by_project,
                },
            )
        },
        None => None,
    }
}

/// What a key does on a session's row.
#[derive(Clone, Copy, Debug, PartialEq, Eq, Structural)]
pub enum SessionKey {
    Select,
    OpenMenu,
    Ignored,
}

/// What a key does on a session's row: enter and space open the session,
/// shift and the tenth function key its menu. A row whose title is being
/// edited leaves its keys to the editor.
pub fn session_item_key(key: &str, shift: bool, renaming: bool) -> (action: SessionKey)
    ensures
        action == if renaming {
            SessionKey::Ignored
        } else if presses(key@) {
            SessionKey::Select
        } else if key@ == "f10"@ && shift {
            SessionKey::OpenMenu
        } else {
            SessionKey::Ignored
        },
{
    if renaming {
        SessionKey::Ignored
    } else if key_presses(key) {
        SessionKey::Select
    } else if shift && text::same(key, "f10") {
        SessionKey::OpenMenu
    } else {
        SessionKey::Ignored
    }
}

// ── The window's header ────────────────────────────────────────────────────

/// What the window's header shows.
pub struct WindowHeader {
    pub title: String,
    /// The preset that the session's agent runs, where it is shown.
    pub agent_preset: Option<String>,
    /// Whether the header carries what the hidden sidebar would.
    pub hosts_sidebar_controls: bool,
    /// Whether the header carries what the hidden side panel would.
    pub hosts_panel_controls: bool,
    pub can_go_back: bool,
    pub can_go_forward: bool,
    pub left_inset: Length,
}

pub struct WindowHeaderView {
    pub title: Seq<char>,
    pub agent_preset: Option<Seq<char>>,
    pub hosts_sidebar_controls: bool,
    pub hosts_panel_controls: bool,
    pub can_go_back: bool,
    pub can_go_forward: bool,
    pub left_inset: int,
}

impl View for WindowHeader {
    type V = WindowHeaderView;

    open spec fn view(&self) -> WindowHeaderView {
        WindowHeaderView {
            title: self.title@,
            agent_preset: text::text_view(self.agent_preset),
            hosts_sidebar_controls: self.hosts_sidebar_controls,
            hosts_panel_controls: self.hosts_panel_controls,
            can_go_back: self.can_go_back,
            can_go_forward: self.can_go_forward,
            left_inset: self.left_inset as int,
        }
    }
}

/// The header's own inset.
pub const HEADER_INSET: Length = 14 * PIXEL;

/// How the window is arranged around the header.
#[derive(Clone, Copy, Debug, PartialEq, Eq, Structural)]
pub struct WindowChrome {
    pub sidebar_visible: bool,
    pub right_panel_visible: bool,
    pub sidebar_width: Length,
    /// How much room the window's own buttons take.
    pub button_clearance: Length,
    pub has_back: bool,
    pub has_forward: bool,
}

/// What the window's header shows. Until the sidebar is wide enough to hold
/// the window's buttons the header clears them.
pub open spec fn window_header_shown(
    entries: Seq<(Seq<char>, Seq<char>)>,
    session: Option<SessionView>,
    preset_label: Option<Seq<char>>,
    chrome: WindowChrome,
) -> WindowHeaderView {
    WindowHeaderView {
        title: match session {
            Some(session) => sidebar_state::shown_title(entries, session),
            None => i18n::plain(entries, "session.new_task"@),
        },
        agent_preset: match session {
            Some(session) => if session.provider == ProviderKind::DeepSeek && session.started {
                preset_label
            } else {
                None
            },
            None => None,
        },
        hosts_sidebar_controls: !chrome.sidebar_visible,
        hosts_panel_controls: !chrome.right_panel_visible,
        can_go_back: chrome.has_back,
        can_go_forward: chrome.has_forward,
        left_inset: if chrome.sidebar_visible {
            HEADER_INSET + layout::remaining(chrome.button_clearance, chrome.sidebar_width)
        } else {
            0
        },
    }
}

/// The view of an optional session.
pub open spec fn session_view(session: Option<&AgentSession>) -> Option<SessionView> {
    match session {
        Some(session) => Some(session@),
        None => None,
    }
}

/// What the window's header shows for the selected session; `preset_label`
/// is what its agent's preset is called.
pub fn window_header(
    catalog: &Catalog,
    session: Option<&AgentSession>,
    preset_label: &Option<String>,
    chrome: WindowChrome,
) -> (header: WindowHeader)
    requires
        layout::sane(chrome.sidebar_width),
        layout::sane(chrome.button_clearance),
    ensures
        header@ == window_header_shown(
            catalog@,
            session_view(session),
            text::text_view(*preset_label),
            chrome,
        ),
{
    let title = match session {
        Some(session) => sidebar_state::localized_session_title(catalog, session),
        None => catalog.text("session.new_task"),
    };
    let shows_preset = match session {
        Some(session) => session.provider == ProviderKind::DeepSeek && session.started,
        None => false,
    };
    WindowHeader {
        title,
        agent_preset: if shows_preset {
            text::copy_text(preset_label)
        } else {
            None
        },
        hosts_sidebar_controls: !chrome.sidebar_visible,
        hosts_panel_controls: !chrome.right_panel_visible,
        can_go_back: chrome.has_back,
        can_go_forward: chrome.has_forward,
        left_inset: if chrome.sidebar_visible {
            HEADER_INSET + layout::transcript_anchor_end_space(
                chrome.button_clearance,
                chrome.sidebar_width,
            )
        } else {
            0
        },
    }
}

/// How well the window keeps up.
#[derive(Clone, Copy, Debug, PartialEq, Eq, Structural)]
pub enum FrameRate {
    Unknown,
    Good,
    Fair,
    Poor,
}

/// How well the window keeps up: fifty-five frames a second are good, thirty
/// are fair; none have not been counted yet.
pub fn frame_rate(frames: u32) -> (rate: FrameRate)
    ensures
        rate == if frames == 0 {
            FrameRate::Unknown
        } else if frames >= 55 {
            FrameRate::Good
        } else if frames >= 30 {
            FrameRate::Fair
        } else {
            FrameRate::Poor
        },
{
    if frames == 0 {
        FrameRate::Unknown
    } else if frames >= 55 {
        FrameRate::Good
    } else if frames >= 30 {
        FrameRate::Fair
    } else {
        FrameRate::Poor
    }
}

/// The counter of frames.
pub fn frame_rate_label(frames: u32) -> (label: String)
    ensures
        label@ == text::decimal_digits(frames as nat) + " FPS"@,
{
    let mut label = text::decimal(frames as u64);
    label.append(" FPS");
    label
}

// ── The empty state ────────────────────────────────────────────────────────

/// A project that can be chosen.
pub struct ProjectChoice {
    pub id: Id,
    pub name: String,
    pub selected: bool,
}

pub struct ProjectChoiceView {
    pub id: Id,
    pub name: Seq<char>,
    pub selected: bool,
}

impl View for ProjectChoice {
    type V = ProjectChoiceView;

    open spec fn view(&self) -> ProjectChoiceView {
        ProjectChoiceView { id: self.id, name: self.name@, selected: self.selected }
    }
}

/// The views of the choices.
pub open spec fn choices_view(choices: Seq<ProjectChoice>) -> Seq<ProjectChoiceView> {
    choices.map_values(|choice: ProjectChoice| choice@)
}

/// A project with whether it only holds loose tasks.
pub struct ProjectInfo {
    pub id: Id,
    pub name: String,
    pub projectless: bool,
}

/// An entry of a menu that is no choice among values.
pub struct MenuEntry {
    pub label: String,
    pub icon: String,
    pub selected: bool,
}

#[verifier::ext_equal]
pub struct MenuEntryView {
    pub label: Seq<char>,
    pub icon: Seq<char>,
    pub selected: bool,
}

impl View for MenuEntry {
    type V = MenuEntryView;

    open spec fn view(&self) -> MenuEntryView {
        MenuEntryView { label: self.label@, icon: self.icon@, selected: self.selected }
    }
}

/// The menu of projects, from top to bottom.
pub struct ProjectMenu {
    pub choices: Vec<ProjectChoice>,
    /// A line below the projects, where there are any.
    pub separator: bool,
    pub new_project: MenuEntry,
    pub no_project: MenuEntry,
}

#[verifier::ext_equal]
pub struct ProjectMenuView {
    pub choices: Seq<ProjectChoiceView>,
    pub separator: bool,
    pub new_project: MenuEntryView,
    pub no_project: MenuEntryView,
}

impl View for ProjectMenu {
    type V = ProjectMenuView;

    open spec fn view(&self) -> ProjectMenuView {
        ProjectMenuView {
            choices: choices_view(self.choices@),
            separator: self.separator,
            new_project: self.new_project@,
            no_project: self.no_project@,
        }
    }
}

/// What stands in place of a conversation.
pub enum EmptyState {
    /// No project is selected: the user is asked to open one, or to go on
    /// without.
    Onboarding { title: String, description: String, open_project: String, no_project: String },
    /// The user is asked what to build, without a project.
    Projectless { question: String },
    /// The user is asked what to build in a project, whose name opens the menu
    /// of projects.
    InProject { question: String, name: String, question_mark: String, menu: ProjectMenu },
}

pub ghost enum EmptyStateView {
    Onboarding {
        title: Seq<char>,
        description: Seq<char>,
        open_project: Seq<char>,
        no_project: Seq<char>,
    },
    Projectless { question: Seq<char> },
    InProject {
        question: Seq<char>,
        name: Seq<char>,
        question_mark: Seq<char>,
        menu: ProjectMenuView,
    },
}

impl View for EmptyState {
    type V = EmptyStateView;

    open spec fn view(&self) -> EmptyStateView {
        match self {
            EmptyState::Onboarding {
                title,
                description,
                open_project,
                no_project,
            } => EmptyStateView::Onboarding {
                title: title@,
                description: description@,
                open_project: open_project@,
                no_project: no_project@,
            },
            EmptyState::Projectless { question } => EmptyStateView::Projectless {
                question: question@,
            },
            EmptyState::InProject { question, name, question_mark, menu } => {
                EmptyStateView::InProject {
                    question: question@,
                    name: name@,
                    question_mark: question_mark@,
                    menu: menu@,
                }
            },
        }
    }
}

/// Those of the first `n` projects that can be chosen and are, or are not,
/// the selected one.
pub open spec fn choosable(
    projects: Seq<ProjectInfo>,
    selected: Option<Id>,
    wanted: bool,
    n: int,
) -> Seq<ProjectChoiceView>
    decreases n,
{
    if n <= 0 {
        Seq::empty()
    } else {
        let above = choosable(projects, selected, wanted, n - 1);
        let project = projects[n - 1];
        let is_selected = selected == Some(project.id);
        if !project.projectless && is_selected == wanted {
            above.push(
                ProjectChoiceView {
                    id: project.id,
                    name: project.name@,
                    selected: is_selected,
                },
            )
        } else {
            above
        }
    }
}

/// The projects that can be chosen, the selected one first.
pub open spec fn project_choices(projects: Seq<ProjectInfo>, selected: Option<Id>) -> Seq<
    ProjectChoiceView,
> {
    choosable(projects, selected, true, projects.len() as int) + choosable(
        projects,
        selected,
        false,
        projects.len() as int,
    )
}

/// The selected project.
pub open spec fn selected_at(projects: Seq<ProjectInfo>, selected: Option<Id>) -> Option<int>
    decreases projects.len(),
{
    if projects.len() == 0 || selected is None {
        None
    } else if Some(projects[0].id) == selected {
        Some(0)
    } else {
        match selected_at(projects.skip(1), selected) {
            Some(i) => Some(i + 1),
            None => None,
        }
    }
}

/// The menu of projects: those that can be chosen, a line below them, and the
/// entries for another project and for none. It stands where the selected
/// project is an ordinary one, so the last is not marked.
pub open spec fn project_menu_shown(
    entries: Seq<(Seq<char>, Seq<char>)>,
    projects: Seq<ProjectInfo>,
    selected: Option<Id>,
) -> ProjectMenuView {
    let choices = project_choices(projects, selected);
    ProjectMenuView {
        choices,
        separator: choices.len() > 0,
        new_project: MenuEntryView {
            label: i18n::plain(entries, "project.new_project"@),
            icon: "icons/folder-new.svg"@,
            selected: false,
        },
        no_project: MenuEntryView {
            label: i18n::plain(entries, "project.no_project"@),
            icon: "icons/x.svg"@,
            selected: false,
        },
    }
}

/// What stands in place of a conversation.
pub open spec fn empty_shown(
    entries: Seq<(Seq<char>, Seq<char>)>,
    projects: Seq<ProjectInfo>,
    selected: Option<Id>,
) -> EmptyStateView {
    match selected_at(projects, selected) {
        None => EmptyStateView::Onboarding {
            title: i18n::plain(entries, "onboarding.open_project_to_begin"@),
            description: i18n::plain(entries, "onboarding.description"@),
            open_project: i18n::plain(entries, "onboarding.open_project_folder"@),
            no_project: i18n::plain(entries, "project.no_project"@),
        },
        Some(i) => if projects[i].projectless {
            EmptyStateView::Projectless {
                question: i18n::plain(entries, "onboarding.what_should_we_build"@),
            }
        } else {
            EmptyStateView::InProject {
                question: i18n::plain(entries, "onboarding.what_should_we_build_in"@),
                name: projects[i].name@,
                question_mark: i18n::plain(entries, "onboarding.question_mark"@),
                menu: project_menu_shown(entries, projects, selected),
            }
        },
    }
}

fn find_selected(projects: &Vec<ProjectInfo>, selected: Option<Id>) -> (found: Option<usize>)
    ensures
        match found {
            Some(i) => i < projects@.len() && selected_at(projects@, selected) == Some(i as int),
            None => selected_at(projects@, selected) is None,
        },
{
    if selected.is_none() {
        return None;
    }
    let mut i: usize = 0;
    assert(projects@.skip(0) =~= projects@);
    while i < projects.len()
        invariant
            i <= projects@.len(),
            selected is Some,
            selected_at(projects@, selected) == (match selected_at(
                projects@.skip(i as int),
                selected,
            ) {
                Some(k) => Some(k + i),
                None => None,
            }),
        decreases projects@.len() - i,
    {
        assert(projects@.skip(i as int)[0] == projects@[i as int]);
        assert(projects@.skip(i as int).skip(1) =~= projects@.skip(i + 1));
        if Some(projects[i].id) == selected {
            return Some(i);
        }
        i += 1;
    }
    None
}

fn push_choices(
    choices: &mut Vec<ProjectChoice>,
    projects: &Vec<ProjectInfo>,
    selected: Option<Id>,
    wanted: bool,
)
    ensures
        choices_view(final(choices)@) == choices_view(old(choices)@) + choosable(
            projects@,
            selected,
            wanted,
            projects@.len() as int,
        ),
{
    let ghost before = choices_view(choices@);
    let mut i: usize = 0;
    assert(before + Seq::<ProjectChoiceView>::empty() =~= before);
    while i < projects.len()
        invariant
            i <= projects@.len(),
            choices_view(choices@) == before + choosable(projects@, selected, wanted, i as int),
        decreases projects@.len() - i,
    {
        let ghost above = choices_view(choices@);
        let project = &projects[i];
        let is_selected = selected == Some(project.id);
        if !project.projectless && is_selected == wanted {
            let ghost added = ProjectChoiceView {
                id: project.id,
                name: project.name@,
                selected: is_selected,
            };
            choices.push(
                ProjectChoice { id: project.id, name: project.name.clone(), selected: is_selected },
            );
            assert(choices_view(choices@) =~= above.push(added));
            assert(choices_view(choices@) =~= before + choosable(
                projects@,
                selected,
                wanted,
                i + 1,
            ));
        }
        i += 1;
    }
}

/// The projects that can be chosen, the selected one first.
pub fn list_project_choices(projects: &Vec<ProjectInfo>, selected: Option<Id>) -> (choices: Vec<
    ProjectChoice,
>)
    ensures
        choices_view(choices@) == project_choices(projects@, selected),
{
    let mut choices: Vec<ProjectChoice> = Vec::new();
    assert(choices_view(choices@) =~= Seq::<ProjectChoiceView>::empty());
    push_choices(&mut choices, projects, selected, true);
    let ghost first = choosable(projects@, selected, true, projects@.len() as int);
    assert(Seq::<ProjectChoiceView>::empty() + first =~= first);
    push_choices(&mut choices, projects, selected, false);
    choices
}

fn project_menu(catalog: &Catalog, projects: &Vec<ProjectInfo>, selected: Option<Id>) -> (menu:
    ProjectMenu)
    ensures
        menu@ == project_menu_shown(catalog@, projects@, selected),
{
    let choices = list_project_choices(projects, selected);
    let separator = choices.len() > 0;
    assert(choices_view(choices@).len() == choices@.len());
    ProjectMenu {
        choices,
        separator,
        new_project: MenuEntry {
            label: catalog.text("project.new_project"),
            icon: text::owned("icons/folder-new.svg"),
            selected: false,
        },
        no_project: MenuEntry {
            label: catalog.text("project.no_project"),
            icon: text::owned("icons/x.svg"),
            selected: false,
        },
    }
}

/// What stands in place of a conversation: where no project is selected, the
/// request to open one; else the question what to build.
pub fn empty_state(catalog: &Catalog, projects: &Vec<ProjectInfo>, selected: Option<Id>) -> (shown:
    EmptyState)
    ensures
        shown@ == empty_shown(catalog@, projects@, selected),
{
    match find_selected(projects, selected) {
        None => EmptyState::Onboarding {
            title: catalog.text("onboarding.open_project_to_begin"),
            description: catalog.text("onboarding.description"),
            open_project: catalog.text("onboarding.open_project_folder"),
            no_project: catalog.text("project.no_project"),
        },
        Some(i) => {
            if projects[i].projectless {
                EmptyState::Projectless {
                    question: catalog.text("onboarding.what_should_we_build"),
                }
            } else {
                EmptyState::InProject {
                    question: catalog.text("onboarding.what_should_we_build_in"),
                    name: projects[i].name.clone(),
                    question_mark: catalog.text("onboarding.question_mark"),
                    menu: project_menu(catalog, projects, selected),
                }
            }
        },
    }
}

/// An entry of the menu of projects.
#[derive(Clone, Copy, Debug, PartialEq, Eq, Structural)]
pub enum ProjectPick {
    Project(Id),
    NewProject,
    NoProject,
}

/// What an entry of the menu of projects does.
#[derive(Clone, Copy, Debug, PartialEq, Eq, Structural)]
pub enum ProjectPickStep {
    Nothing,
    Select(Id),
    AddProject,
    /// A task without a project is opened.
    Projectless,
}

/// What an entry of the menu of projects does. Choosing the project that was
/// selected when the menu was built does nothing. Going on without a project
/// does nothing where a task without one is on screen already.
pub fn pick_project(
    pick: ProjectPick,
    selected: Option<Id>,
    projectless_selected: bool,
) -> (step: ProjectPickStep)
    ensures
        step == match pick {
            ProjectPick::Project(id) => if selected == Some(id) {
                ProjectPickStep::Nothing
            } else {
                ProjectPickStep::Select(id)
            },
            ProjectPick::NewProject => ProjectPickStep::AddProject,
            ProjectPick::NoProject => if projectless_selected {
                ProjectPickStep::Nothing
            } else {
                ProjectPickStep::Projectless
            },
        },
{
    match pick {
        ProjectPick::Project(id) => if selected == Some(id) {
            ProjectPickStep::Nothing
        } else {
            ProjectPickStep::Select(id)
        },
        ProjectPick::NewProject => ProjectPickStep::AddProject,
        ProjectPick::NoProject => if projectless_selected {
            ProjectPickStep::Nothing
        } else {
            ProjectPickStep::Projectless
        },
    }
}

// ── The updater's button ───────────────────────────────────────────────────

/// How far an update of the program has come.
#[derive(Clone, Copy, Debug, PartialEq, Eq, Structural)]
pub enum UpdateStatus {
    Idle,
    Available,
    Updating,
}

/// What the updater's button shows.
#[derive(Clone, Copy, Debug, PartialEq, Eq, Structural)]
pub enum UpdaterButton {
    Hidden,
    /// A spinner; the button cannot be pressed.
    Busy,
    /// The button can be pressed; whether its label is unfolded, and whether
    /// it is on its way there.
    Ready { expanded: bool, animated: bool },
}

/// What the updater's button shows.
pub fn updater_button(status: UpdateStatus, expanded: bool, animation_generation: u64) -> (button:
    UpdaterButton)
    ensures
        button == match status {
            UpdateStatus::Idle => UpdaterButton::Hidden,
            UpdateStatus::Updating => UpdaterButton::Busy,
            UpdateStatus::Available => UpdaterButton::Ready {
                expanded: expanded && animation_generation != 0,
                animated: animation_generation != 0,
            },
        },
{
    match status {
        UpdateStatus::Idle => UpdaterButton::Hidden,
        UpdateStatus::Updating => UpdaterButton::Busy,
        UpdateStatus::Available => UpdaterButton::Ready {
            expanded: expanded && animation_generation != 0,
            animated: animation_generation != 0,
        },
    }
}

/// The status after the user asked for the update: it only moves on where one
/// is available and its installation started.
pub fn start_available_update(status: UpdateStatus, started: bool) -> (next: UpdateStatus)
    ensures
        next == if status == UpdateStatus::Available && started {
            UpdateStatus::Updating
        } else {
            status
        },
{
    if status == UpdateStatus::Available && started {
        UpdateStatus::Updating
    } else {
        status
    }
}

/// One entry of a menu.
pub struct MenuChoice {
    pub label: String,
    pub selected: bool,
}

/// What the sidebar's options offer: how to group and how to order.
pub fn sidebar_options(catalog: &Catalog, state: &SidebarState) -> (options: (
    Vec<MenuChoice>,
    Vec<MenuChoice>,
))
    ensures
        ({
            let (grouping, ordering) = options;
            &&& grouping@.len() == 2
            &&& grouping@[0].label@ == i18n::plain(catalog@, "sidebar.grouping_project"@)
            &&& grouping@[0].selected == (state.grouping == SidebarGrouping::Project)
            &&& grouping@[1].label@ == i18n::plain(catalog@, "sidebar.grouping_updated"@)
            &&& grouping@[1].selected == (state.grouping == SidebarGrouping::Updated)
            &&& ordering@.len() == 2
            &&& ordering@[0].label@ == i18n::plain(catalog@, "sidebar.ordering_newest"@)
            &&& ordering@[0].selected == (state.ordering == SidebarOrdering::Newest)
            &&& ordering@[1].label@ == i18n::plain(catalog@, "sidebar.ordering_oldest"@)
            &&& ordering@[1].selected == (state.ordering == SidebarOrdering::Oldest)
        }),
{
    let mut grouping: Vec<MenuChoice> = Vec::new();
    grouping.push(
        MenuChoice {
            label: sidebar::sidebar_grouping_label(catalog, SidebarGrouping::Project),
            selected: state.grouping == SidebarGrouping::Project,
        },
    );
    grouping.push(
        MenuChoice {
            label: sidebar::sidebar_grouping_label(catalog, SidebarGrouping::Updated),
            selected: state.grouping == SidebarGrouping::Updated,
        },
    );
    let mut ordering: Vec<MenuChoice> = Vec::new();
    ordering.push(
        MenuChoice {
            label: sidebar::sidebar_ordering_label(catalog, SidebarOrdering::Newest),
            selected: state.ordering == SidebarOrdering::Newest,
        },
    );
    ordering.push(
        MenuChoice {
            label: sidebar::sidebar_ordering_label(catalog, SidebarOrdering::Oldest),
            selected: state.ordering == SidebarOrdering::Oldest,
        },
    );
    (grouping, ordering)
}

} // verus!
