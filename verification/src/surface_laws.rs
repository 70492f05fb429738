//! What the user sees and touches, said of every call: wording, times, rows,
//! panels, switches and presses.
use crate::activity;
use crate::activity::ActivityNouns;
use crate::calendar;
use crate::calendar::{CalendarDate, Moment};
use crate::controls;
use crate::controls::{
    AppGrant, EscapeStopArm, EscapeStopConfirmation, ModelPicker, ModelPickerTab,
};
use crate::i18n;
use crate::i18n::Catalog;
use crate::layout;
use crate::layout::{Length, PanelResizeDrag, PanelResizeTarget, RowRange};
use crate::memory;
use crate::memory::{MemoryPage, MemoryState};
use crate::model::{ActivityItem, ActivityKind, ActivityView, Id};
use crate::navigation;
use crate::session::{TodoItem, TodoStatus};
use crate::settings;
use crate::settings::{ComputerUsePanel, PageLayout, SettingsPage};
use crate::sidebar::{Project, SidebarGroup, SidebarRow, SidebarState};
use crate::sidebar_state;
use crate::sidebar_view;
use crate::sidebar_view::{FrameRate, GroupCompose};
use crate::tasks;
use crate::tasks::WorkspaceReply;
use crate::text;
use crate::todo;
use crate::updater;
use crate::updater::{ArgumentView, Given};
use vstd::prelude::*;

verus! {

// ── Wording ────────────────────────────────────────────────────────────────

/// What a step is about comes before its own title: where it is known, another
/// title gives the same name.
pub proof fn a_subject_comes_before_a_title(
    entries: Seq<(Seq<char>, Seq<char>)>,
    step: ActivityView,
    target: Option<Seq<char>>,
    title: Seq<char>,
    generic: bool,
)
    requires
        ({
            ||| step.kind is FileChange && step.file_changes.len() > 0
            ||| (step.kind is FileRead || step.kind is FileList) && target is Some
            ||| (step.kind is FileSearch || step.kind is Search) && step.display_target is Some
            ||| step.kind is Command && (step.display_target is Some
                || step.display_description is Some)
        }),
    ensures
        activity::display_title(
            entries,
            (ActivityView { title, title_is_generic: generic, ..step }),
            target,
        ) == activity::display_title(entries, step, target),
{
}

/// A step that is about nothing has its own title, unless that title only
/// repeats what kind of step it is.
pub proof fn a_step_keeps_its_own_title(
    entries: Seq<(Seq<char>, Seq<char>)>,
    step: ActivityView,
)
    requires
        step.display_target is None && step.display_description is None
            && step.file_changes.len() == 0,
        !step.title_is_generic && !step.title_names_search,
        !(step.kind is Tool),
    ensures
        activity::display_title(entries, step, None) == step.title,
{
}

/// While a step runs it does not matter how it will end, and one that ended
/// well is not told apart by anything that it printed.
pub proof fn a_running_step_has_not_failed(
    entries: Seq<(Seq<char>, Seq<char>)>,
    step: ActivityView,
    target: Option<Seq<char>>,
    failed: bool,
    output: Option<Seq<char>>,
)
    ensures
        !step.complete ==> activity::display_title(
            entries,
            (ActivityView { failed, ..step }),
            target,
        ) == activity::display_title(entries, step, target),
        activity::display_title(entries, (ActivityView { output, ..step }), target)
            == activity::display_title(entries, step, target),
{
}

/// Steps are told together as going on while one of them is, and as done once
/// all of them are over.
pub proof fn steps_go_on_while_one_does(
    entries: Seq<(Seq<char>, Seq<char>)>,
    nouns: ActivityNouns,
    steps: Seq<ActivityView>,
)
    ensures
        (forall|i: int| 0 <= i < steps.len() ==> (#[trigger] steps[i]).complete) ==> exists|
            told: Seq<char>,
        |
            activity::summary(entries, nouns, steps) == #[trigger] i18n::localized(
                entries,
                "activity.ran"@,
                seq![i18n::argument("activities"@, told)],
            ),
        (exists|i: int| 0 <= i < steps.len() && !(#[trigger] steps[i]).complete) ==> exists|
            told: Seq<char>,
        |
            activity::summary(entries, nouns, steps) == #[trigger] i18n::localized(
                entries,
                "activity.running"@,
                seq![i18n::argument("activities"@, told)],
            ),
{
    let told = text::joined(
        activity::count_texts(entries, nouns, activity::kind_counts(steps, steps.len() as int)),
        " · "@,
    );
    let arguments = seq![i18n::argument("activities"@, told)];
    assert(i18n::localized(entries, "activity.ran"@, arguments) == i18n::localized(
        entries,
        "activity.ran"@,
        arguments,
    ));
    assert(i18n::localized(entries, "activity.running"@, arguments) == i18n::localized(
        entries,
        "activity.running"@,
        arguments,
    ));
}

/// A tool's name as words is the name: it loses only what joined its words, and
/// gains only spaces between them.
pub proof fn words_keep_their_letters(name: Seq<char>, n: int)
    requires
        0 <= n <= name.len(),
    ensures
        forall|i: int|
            0 <= i < activity::spelled_out(name, n).len() ==> (#[trigger] activity::spelled_out(
                name,
                n,
            )[i]) != '_' && activity::spelled_out(name, n)[i] != '-',
        activity::spelled_out(name, n).filter(|c: char| c != ' ') == name.take(n).filter(
            |c: char| c != ' ' && c != '_' && c != '-',
        ),
        n > 0 && (name[n - 1] == '_' || name[n - 1] == '-') ==> activity::spelled_out(
            name,
            n,
        ).last() == ' ',
    decreases n,
{
    reveal(Seq::filter);
    if n > 0 {
        words_keep_their_letters(name, n - 1);
        let before = activity::spelled_out(name, n - 1);
        let spaced = activity::spaced(before);
        let c = name[n - 1];
        assert(name.take(n).drop_last() =~= name.take(n - 1));
        assert(name.take(n).last() == c);
        assert(before.push(' ').drop_last() =~= before);
        assert(before.push(c).drop_last() =~= before);
        assert(spaced.push(c).drop_last() =~= spaced);
        assert(spaced.filter(|c: char| c != ' ') == before.filter(|c: char| c != ' '));
    } else {
        assert(name.take(0) =~= Seq::<char>::empty());
    }
}

/// Each day of the week has a name of its own, from Monday to Sunday.
pub proof fn weekdays_differ(a: int, b: int)
    requires
        0 <= a < 7 && 0 <= b < 7,
    ensures
        calendar::weekday_key(a) == calendar::weekday_key(b) ==> a == b,
        calendar::weekday_key(0) == "time.monday"@ && calendar::weekday_key(6) == "time.sunday"@,
{
    reveal_strlit("time.monday");
    reveal_strlit("time.tuesday");
    reveal_strlit("time.wednesday");
    reveal_strlit("time.thursday");
    reveal_strlit("time.friday");
    reveal_strlit("time.saturday");
    reveal_strlit("time.sunday");
    assert("time.monday"@[5] == 'm' && "time.wednesday"@[5] == 'w' && "time.friday"@[5] == 'f');
    assert("time.tuesday"@[5] == 't' && "time.tuesday"@[6] == 'u');
    assert("time.thursday"@[5] == 't' && "time.thursday"@[6] == 'h');
    assert("time.saturday"@[5] == 's' && "time.saturday"@[6] == 'a');
    assert("time.sunday"@[5] == 's' && "time.sunday"@[6] == 'u');
}

/// A tool's step is named by what it is about where the tool says so; a question
/// to the user never is.
pub proof fn a_tool_is_named_by_its_target(
    catalog: &Catalog,
    step: &ActivityItem,
    asks: bool,
    name: String,
)
    requires
        call_ensures(activity::is_ask_user_question, (step,), asks),
        call_ensures(activity::activity_tool_display_name, (catalog, step), name),
    ensures
        asks ==> step@.kind == ActivityKind::Tool,
        !asks && step@.display_target is Some && text::trimmed(step@.display_target->0).len() > 0
            ==> name@ == text::trimmed(step@.display_target->0),
        !asks && !(step@.display_target is Some && text::trimmed(step@.display_target->0).len()
            > 0) && step@.title_is_generic ==> name@ == i18n::plain(catalog@, "activity.tool"@),
        !asks && !(step@.display_target is Some && text::trimmed(step@.display_target->0).len()
            > 0) && !step@.title_is_generic ==> name@ == activity::humanized(
            catalog@,
            step@.title,
        ),
{
}

/// A group of steps is live while its turn runs, nothing was said after it and
/// nothing stands below it.
pub proof fn a_live_group_stands_last(
    live_turn: bool,
    latest: bool,
    after: usize,
    count: usize,
    live: bool,
)
    requires
        call_ensures(activity::activity_group_is_live, (live_turn, latest, after, count), live),
    ensures
        live <==> live_turn && latest && after == count,
{
}

/// A message of the same day shows the clock alone, whatever the language says;
/// an older one in English still ends with it, unless it is of the day before.
pub proof fn a_time_ends_with_its_clock(
    entries: Seq<(Seq<char>, Seq<char>)>,
    others: Seq<(Seq<char>, Seq<char>)>,
    east_asian: bool,
    moment: Moment,
    today: CalendarDate,
)
    requires
        moment.date.number() < today.number(),
    ensures
        calendar::message_time(entries, east_asian, moment, moment.date)
            == calendar::message_time(others, east_asian, moment, moment.date),
        ({
            let clock = calendar::message_time(entries, false, moment, moment.date);
            let shown = calendar::message_time(entries, false, moment, today);
            moment.date.number() < today.number() - 1 ==> {
                &&& shown.len() > clock.len()
                &&& shown.skip(shown.len() - clock.len()) == clock
                &&& shown == calendar::message_time(others, false, moment, today)
            }
        }),
{
    reveal_strlit(" ");
    reveal_strlit(", ");
    let clock = calendar::message_time(entries, false, moment, moment.date);
    let shown = calendar::message_time(entries, false, moment, today);
    if moment.date.number() < today.number() - 1 {
        assert(shown.skip(shown.len() - clock.len()) =~= clock);
    }
}

/// English counts the days: a first, a second and a third end in their own way
/// in every row of ten but the second.
pub proof fn days_are_counted(day: u32, suffix: &'static str)
    requires
        call_ensures(calendar::day_ordinal_suffix, (day,), suffix),
    ensures
        suffix@ == "st"@ <==> day % 10 == 1 && day % 100 != 11,
        suffix@ == "nd"@ <==> day % 10 == 2 && day % 100 != 12,
        suffix@ == "rd"@ <==> day % 10 == 3 && day % 100 != 13,
        suffix@ == "st"@ || suffix@ == "nd"@ || suffix@ == "rd"@ || suffix@ == "th"@,
{
    reveal_strlit("st");
    reveal_strlit("nd");
    reveal_strlit("rd");
    reveal_strlit("th");
    assert("st"@[0] == 's' && "nd"@[0] == 'n' && "rd"@[0] == 'r' && "th"@[0] == 't');
}

/// An error on one line has no line breaks and no tabs, and is otherwise the
/// beginning of what was reported.
pub proof fn an_error_fits_on_a_line(message: &str, line: String, i: int)
    requires
        call_ensures(updater::one_line_error, (message,), line),
        0 <= i < line@.len(),
    ensures
        line@.len() <= message@.len() && line@.len() <= 1_024,
        line@.len() < 1_024 ==> line@.len() == message@.len(),
        line@[i] != '\n' && line@[i] != '\r' && line@[i] != '\t',
        message@[i] != '\n' && message@[i] != '\r' && message@[i] != '\t' ==> line@[i]
            == message@[i],
        line@[i] != message@[i] ==> line@[i] == ' ',
{
    assert(line@[i] == updater::on_one_line(message@[i]));
}

proof fn lemma_completed(entries: Seq<TodoItem>, n: int)
    requires
        0 <= n <= entries.len(),
    ensures
        todo::completed_count(entries, n) == entries.take(n).filter(
            |entry: TodoItem| entry.status == TodoStatus::Completed,
        ).len(),
    decreases n,
{
    let done = |entry: TodoItem| entry.status == TodoStatus::Completed;
    reveal(Seq::filter);
    if n > 0 {
        lemma_completed(entries, n - 1);
        assert(entries.take(n).drop_last() =~= entries.take(n - 1));
        assert(entries.take(n).last() == entries[n - 1]);
    } else {
        assert(entries.take(0) =~= Seq::<TodoItem>::empty());
    }
}

/// The progress of a list names the entries that are done, and all of them.
pub proof fn progress_counts_what_is_done(entries: &Vec<TodoItem>, label: String)
    requires
        call_ensures(todo::todo_progress_label, (entries,), label),
    ensures
        label@ == text::decimal_digits(
            entries@.filter(|entry: TodoItem| entry.status == TodoStatus::Completed).len(),
        ) + "/"@ + text::decimal_digits(entries@.len()),
{
    lemma_completed(entries@, entries@.len() as int);
    assert(entries@.take(entries@.len() as int) =~= entries@);
}

// ── Rows ───────────────────────────────────────────────────────────────────

proof fn lemma_session_row(rows: Seq<SidebarRow>, id: Id)
    ensures
        ({
            let at = sidebar_view::session_row(rows, id);
            at >= 0 ==> at < rows.len() && rows[at] == SidebarRow::Session(id) && forall|k: int|
                0 <= k < at ==> #[trigger] rows[k] != SidebarRow::Session(id)
        }),
    decreases rows.len(),
{
    if rows.len() > 0 {
        let rest = rows.skip(1);
        lemma_session_row(rest, id);
        let at = sidebar_view::session_row(rows, id);
        assert forall|k: int| 0 <= k < at implies #[trigger] rows[k] != SidebarRow::Session(
            id,
        ) by {
            if k > 0 {
                assert(rest[k - 1] == rows[k]);
            }
        }
    }
}

/// A session's row is its first in the sidebar, where it has one.
pub proof fn a_session_has_its_row(rows: &Vec<SidebarRow>, id: Id, index: Option<usize>, k: int)
    requires
        call_ensures(sidebar_view::sidebar_session_row_index, (rows, id), index),
        0 <= k < rows@.len(),
        rows@[k] == SidebarRow::Session(id),
    ensures
        index is Some,
        index->0 <= k,
        rows@[index->0 as int] == SidebarRow::Session(id),
{
    lemma_session_row(rows@, id);
    assert(rows@.contains(rows@[k]));
}

proof fn lemma_rows_above(rows: Seq<usize>, top: usize, n: int)
    requires
        0 <= n <= rows.len(),
        forall|i: int| 0 <= i < n ==> #[trigger] rows[i] <= top,
        forall|i: int| n <= i < rows.len() ==> #[trigger] rows[i] > top,
    ensures
        navigation::rows_above(rows, top) == n,
    decreases rows.len(),
{
    if rows.len() > 0 {
        let front = rows.drop_last();
        assert(rows.last() == rows[rows.len() - 1]);
        assert forall|i: int| 0 <= i < front.len() implies #[trigger] front[i] == rows[i] by {}
        lemma_rows_above(
            front,
            top,
            if n == rows.len() {
                n - 1
            } else {
                n
            },
        );
    }
}

/// The turn that is marked is the last that begins at or above the top row; the
/// first where all begin below it, and the last at the transcript's end.
pub proof fn the_turn_on_top_is_marked(
    rows: &Vec<usize>,
    top: usize,
    at_end: bool,
    active: Option<usize>,
    k: int,
)
    requires
        call_ensures(navigation::active_navigation_turn_index, (rows, top, at_end), active),
        0 <= k < rows@.len(),
        forall|i: int| 0 <= i <= k ==> #[trigger] rows@[i] <= top || k == 0,
        forall|i: int| k < i < rows@.len() ==> #[trigger] rows@[i] > top,
    ensures
        at_end ==> active == Some((rows@.len() - 1) as usize),
        !at_end ==> active == Some(k as usize),
{
    if rows@[k] <= top {
        lemma_rows_above(rows@, top, k + 1);
    } else {
        assert(k == 0);
        lemma_rows_above(rows@, top, 0);
    }
}

/// The page of what is remembered shows each fact once, the newest first, and
/// one of them at most asks again before it is removed.
pub proof fn what_is_remembered_is_shown(
    catalog: &Catalog,
    state: &MemoryState,
    has_project: bool,
    known: bool,
    page: MemoryPage,
    i: int,
)
    requires
        call_ensures(memory::memory_page_of, (catalog, state, has_project, known), page),
    ensures
        page is NoProject <==> !has_project,
        page is Facts ==> known && state@.facts is Some && state@.facts->0.len() > 0,
        has_project && known && state@.facts is Some ==> page is Empty || page is Facts,
        page is Facts && 0 <= i < state@.facts->0.len() ==> {
            let fact = state@.facts->0[i];
            let row = page->rows@[state@.facts->0.len() - 1 - i];
            &&& page->rows@.len() == state@.facts->0.len()
            &&& row.title@ == fact.title@
            &&& row.body@ == text::trimmed(fact.body@)
            &&& row.armed <==> state@.delete_arming == Some(fact.title@)
        },
{
    if page is Facts && 0 <= i < state@.facts->0.len() {
        let facts = state@.facts->0;
        let row = page->rows@[facts.len() - 1 - i];
        assert(memory::shows_fact(catalog@, row, facts[i], state@.delete_arming));
    }
}

// ── Panels ─────────────────────────────────────────────────────────────────

/// A drag that has not moved is at the width that its panel has; the sidebar
/// grows to the right, the other panels to the left.
pub proof fn a_drag_begins_where_its_panel_ends(
    target: PanelResizeTarget,
    mouse_x: Length,
    sidebar: Length,
    right_panel: Length,
    file_tree: Length,
    drag: PanelResizeDrag,
    moved: Length,
)
    requires
        call_ensures(
            layout::begin_panel_resize,
            (target, mouse_x, sidebar, right_panel, file_tree),
            drag,
        ),
    ensures
        target is Sidebar ==> layout::dragged_width(drag, mouse_x) == sidebar,
        target is RightPanel ==> layout::dragged_width(drag, mouse_x) == right_panel,
        target is FileTree ==> layout::dragged_width(drag, mouse_x) == file_tree,
        target is Sidebar ==> layout::dragged_width(drag, moved) - sidebar == moved - mouse_x,
        target is RightPanel ==> right_panel - layout::dragged_width(drag, moved) == moved
            - mouse_x,
        target is FileTree ==> file_tree - layout::dragged_width(drag, moved) == moved - mouse_x,
{
}

/// The room under a turn is what the viewport has left below it, never less
/// than nothing.
pub proof fn room_is_what_is_left(
    viewport: Length,
    tail: Length,
    previous: Length,
    space: Length,
    anchored: Length,
    kept: Length,
    leading: Option<Length>,
)
    requires
        call_ensures(layout::transcript_anchor_end_space, (viewport, tail), space),
        call_ensures(layout::anchored_end_space, (viewport, Some(tail), previous), anchored),
        call_ensures(layout::anchored_end_space, (viewport, None, previous), kept),
        call_ensures(layout::disclosure_leading_space, (viewport, Some(tail)), leading),
    ensures
        space >= 0,
        viewport >= tail ==> space + tail == viewport,
        viewport <= tail ==> space == 0,
        anchored == space,
        kept == previous,
        leading == Some(space),
{
}

/// The rail's marks are longest at the emphasized turn and shrink evenly to both
/// sides of it; without one they are all alike.
pub proof fn marks_shrink_to_both_sides(
    a: usize,
    b: usize,
    emphasized: Option<usize>,
    first: u32,
    second: u32,
)
    requires
        call_ensures(layout::navigation_rail_scale, (a, emphasized), first),
        call_ensures(layout::navigation_rail_scale, (b, emphasized), second),
    ensures
        25 <= first <= 100,
        emphasized is None ==> first == second,
        emphasized is Some ==> (first == 100 <==> a == emphasized->0),
        emphasized is Some && emphasized->0 <= a <= b ==> second <= first,
        emphasized is Some && a <= b <= emphasized->0 ==> first <= second,
        emphasized is Some && a - emphasized->0 == emphasized->0 - b ==> first == second,
{
}

/// The rail grows with the turns and takes four fifths of the viewport at most;
/// it is shown where there is more than one turn to go to and room beside the
/// text.
pub proof fn a_rail_fits_its_viewport(
    count: usize,
    more: usize,
    viewport: Length,
    low: Length,
    high: Length,
    scrollable: bool,
    width: Length,
    content: Length,
    clearance: Length,
    show: bool,
)
    requires
        0 <= viewport,
        call_ensures(layout::navigation_rail_height, (count, viewport), low),
        call_ensures(layout::navigation_rail_height, (more, viewport), high),
        call_ensures(
            layout::should_show_navigation_rail,
            (scrollable, count, width, content, clearance),
            show,
        ),
    ensures
        5 * low <= 4 * viewport,
        count <= more ==> low <= high,
        count == 0 ==> low == 0,
        show ==> scrollable && count > 1,
        scrollable && count > 1 && width >= content + 2 * clearance ==> show,
{
    if count <= more {
        assert(count * 768 <= more * 768) by (nonlinear_arith)
            requires
                count <= more,
        ;
    }
}

/// The rows that are measured again are the last of them, all where there are
/// not as many.
pub proof fn the_last_rows_are_measured(count: usize, tail: usize, range: RowRange)
    requires
        call_ensures(layout::remeasure_tail, (count, tail), range),
    ensures
        range.to == count,
        range.from <= range.to,
        range.to - range.from <= tail,
        tail >= count ==> range.from == 0,
        tail <= count ==> range.to - range.from == tail,
{
}

/// The transcript takes what the panels leave it, within its limits; a width
/// that it had before is not taken up again.
pub proof fn the_transcript_takes_what_is_left(
    viewport: Length,
    sidebar: Length,
    panel: Length,
    maximum: Length,
    first: (Length, bool),
    previous: Length,
    second: (Length, bool),
)
    requires
        64 <= maximum,
        call_ensures(
            layout::sync_transcript_layout_width,
            (viewport, sidebar, panel, maximum, previous),
            first,
        ),
        call_ensures(
            layout::sync_transcript_layout_width,
            (viewport, sidebar, panel, maximum, first.0),
            second,
        ),
    ensures
        64 <= first.0 <= maximum,
        sidebar + panel + first.0 < viewport || first.0 == 64,
        second.0 == first.0,
        !second.1,
        previous <= 0 ==> first.1,
{
}

// ── Switches and presses ───────────────────────────────────────────────────

/// A first press is forgotten when its time is over, and only by its own clock.
pub proof fn a_press_is_forgotten_by_its_own_clock(
    confirmation: &mut EscapeStopConfirmation,
    arm: EscapeStopArm,
    expired: bool,
    cleared: &mut EscapeStopConfirmation,
)
    requires
        call_ensures(EscapeStopConfirmation::expire, (confirmation, arm), expired),
        call_ensures(EscapeStopConfirmation::clear, (cleared,), ()),
    ensures
        expired <==> old(confirmation).armed == Some(arm),
        expired ==> final(confirmation).armed is None,
        !expired ==> *final(confirmation) == *old(confirmation),
        final(cleared).armed is None,
{
}

/// Another tab of the picker begins without a highlighted row; the same one
/// stays as it was.
pub proof fn another_tab_begins_anew(picker: &mut ModelPicker, tab: ModelPickerTab, changed: bool)
    requires
        call_ensures(controls::select_model_picker_tab, (picker, tab), changed),
    ensures
        final(picker).tab == tab,
        changed ==> final(picker).highlight is None,
        !changed ==> *final(picker) == *old(picker),
        changed <==> old(picker).tab != tab,
{
}

/// The permissions are asked for once until they have been answered; switching
/// the control of the computer on asks for them, switching it off asks for
/// nothing.
pub proof fn permissions_are_asked_for_once(
    pending: &mut bool,
    prompt: bool,
    first: Option<bool>,
    setting: &mut bool,
    still: &mut bool,
    enabled: bool,
    second: Option<bool>,
)
    requires
        call_ensures(settings::request_computer_permissions, (pending, prompt), first),
        *old(still) == *final(pending),
        call_ensures(settings::set_computer_use_enabled, (setting, still, enabled), second),
    ensures
        first is Some <==> !*old(pending),
        first is Some ==> first == Some(prompt),
        *final(pending),
        second is None,
        *final(setting) == enabled,
        *final(still),
{
}

/// Switching the control of the computer on asks for the permissions unless
/// they have been asked for.
pub proof fn control_needs_permissions(
    setting: &mut bool,
    pending: &mut bool,
    enabled: bool,
    request: Option<bool>,
)
    requires
        call_ensures(settings::set_computer_use_enabled, (setting, pending, enabled), request),
    ensures
        *final(setting) == enabled,
        enabled && !*old(pending) ==> request == Some(true) && *final(pending),
        !enabled ==> request is None && *final(pending) == *old(pending),
{
}

/// A page that scrolls by itself shows no line under the title bar, and neither
/// does one that has not been scrolled.
pub proof fn a_line_marks_what_slid_away(
    page: SettingsPage,
    list: bool,
    scrolled: bool,
    layout: PageLayout,
)
    requires
        call_ensures(settings::page_layout, (page, list, scrolled), layout),
    ensures
        layout.shows_scroll_edge ==> scrolled && !layout.fills_viewport && !layout.owns_column,
        layout.fills_viewport ==> layout.wide && list,
        scrolled && !layout.fills_viewport && !layout.owns_column ==> layout.shows_scroll_edge,
        !(layout.wide && layout.owns_column),
        layout.wide <==> page is Usage,
        layout.owns_column <==> page is Skills,
{
}

/// The page for the control of the computer shows each permission as it is, and
/// each application that may be controlled.
pub proof fn permissions_are_shown_as_they_are(
    catalog: &Catalog,
    enabled: bool,
    recording: bool,
    accessibility: bool,
    pending: bool,
    helper: &str,
    grants: &Vec<AppGrant>,
    panel: ComputerUsePanel,
)
    requires
        call_ensures(
            settings::computer_use_settings,
            (catalog, enabled, recording, accessibility, pending, helper, grants),
            panel,
        ),
    ensures
        panel.enabled == enabled,
        panel.screen_recording.granted == recording,
        panel.accessibility.granted == accessibility,
        recording ==> panel.screen_recording.label@ == i18n::plain(
            catalog@,
            "computer_use.access_granted"@,
        ),
        !recording ==> panel.screen_recording.label@ == i18n::plain(
            catalog@,
            "computer_use.grant_access"@,
        ),
        recording == accessibility ==> panel.screen_recording.label@
            == panel.accessibility.label@,
{
}

/// A command line names its three values in any order, and each is found behind
/// its name.
pub proof fn a_command_line_names_its_values(
    arguments: Seq<ArgumentView>,
    install: int,
    staged: int,
    parent: int,
)
    requires
        arguments.len() == 6,
        install == 0 || install == 2 || install == 4,
        staged == 0 || staged == 2 || staged == 4,
        parent == 0 || parent == 2 || parent == 4,
        install != staged && staged != parent && parent != install,
        arguments[install].is_text && arguments[install].shown == "--install-dir"@,
        arguments[staged].is_text && arguments[staged].shown == "--staged-dir"@,
        arguments[parent].is_text && arguments[parent].shown == "--parent-pid"@,
        arguments[parent + 1].is_text,
        text::number_within(arguments[parent + 1].shown, u32::MAX as nat) is Some,
    ensures
        ({
            let request = updater::requested(arguments);
            &&& request is Ok
            &&& request->Ok_0.install_dir == install + 1
            &&& request->Ok_0.staged_dir == staged + 1
            &&& request->Ok_0.parent_pid == text::number_within(
                arguments[parent + 1].shown,
                u32::MAX as nat,
            )->0 as u32
        }),
{
    reveal_strlit("--install-dir");
    reveal_strlit("--staged-dir");
    reveal_strlit("--parent-pid");
    assert("--install-dir"@[2] == 'i' && "--staged-dir"@[2] == 's' && "--parent-pid"@[2] == 'p');
    reveal_with_fuel(Given::through, 4);
}

/// A command line that names a value twice is refused.
pub proof fn a_repeated_name_is_refused(arguments: Seq<ArgumentView>)
    requires
        arguments.len() >= 4,
        arguments[0].shown == arguments[2].shown,
    ensures
        updater::requested(arguments) is Err,
{
    reveal_strlit("--install-dir");
    reveal_strlit("--staged-dir");
    reveal_strlit("--parent-pid");
    assert("--install-dir"@[2] == 'i' && "--staged-dir"@[2] == 's' && "--parent-pid"@[2] == 'p');
    reveal_with_fuel(Given::through, 3);
}

/// Labels of branches that were read before the workspace changed are refused
/// afterwards; without a change they are taken.
pub proof fn stale_labels_are_refused(
    state: &mut SidebarState,
    generation: u64,
    fresh: bool,
    stale: bool,
)
    requires
        call_ensures(sidebar_state::invalidate_workspace_queries, (state,), ()),
        generation == old(state).branch_scan_generation,
        call_ensures(sidebar_state::accepts_branch_labels, (&*old(state), generation), fresh),
        call_ensures(sidebar_state::accepts_branch_labels, (&*final(state), generation), stale),
    ensures
        fresh,
        !stale,
        final(state).branch_scan_fingerprint is None,
        final(state).collapsed == old(state).collapsed && final(state).grouping
            == old(state).grouping && final(state).ordering == old(state).ordering,
{
}

/// Giving up a name leaves everything else, and there is nothing to give up
/// where none was being written.
pub proof fn a_name_is_given_up(state: &mut SidebarState, cancelled: bool)
    requires
        call_ensures(sidebar_state::cancel_session_rename, (state,), cancelled),
    ensures
        cancelled <==> old(state).rename is Some,
        final(state).rename is None,
        !cancelled ==> *final(state) == *old(state),
        final(state).collapsed == old(state).collapsed,
{
}

/// More frames are never worse, and none at all says nothing.
pub proof fn more_frames_are_not_worse(few: u32, many: u32, low: FrameRate, high: FrameRate)
    requires
        call_ensures(sidebar_view::frame_rate, (few,), low),
        call_ensures(sidebar_view::frame_rate, (many,), high),
        0 < few <= many,
    ensures
        low is Good ==> high is Good,
        low is Fair ==> !(high is Poor),
        !(low is Unknown) && !(high is Unknown),
        low is Good <==> few >= 55,
        low is Poor <==> few < 30,
{
}

/// A section opens a new task in its own project, or in none where it gathers
/// the tasks without one; a period opens none.
pub proof fn a_section_opens_its_own_task(group: SidebarGroup, compose: GroupCompose)
    requires
        call_ensures(sidebar_view::open_new_task_for_sidebar_group, (group,), compose),
    ensures
        compose is SelectProject <==> group is Project,
        compose is SelectProject ==> compose->SelectProject_0 == group->Project_0,
        compose is Projectless <==> group is Projectless,
        compose is Nothing <==> group is Updated,
{
}

/// A workspace that was made is a project from then on, behind the others; one
/// that was not leaves them as they were.
pub proof fn a_workspace_joins_the_projects(
    catalog: &Catalog,
    projects: &mut Vec<Project>,
    reply: WorkspaceReply,
    result: Result<Id, String>,
)
    requires
        call_ensures(tasks::finish_projectless_workspace, (catalog, projects, reply), result),
    ensures
        result is Ok <==> reply is Created,
        result is Ok ==> {
            &&& final(projects)@.len() == old(projects)@.len() + 1
            &&& final(projects)@.drop_last() == old(projects)@
            &&& final(projects)@.last() == reply->project
            &&& result->Ok_0 == reply->project.id
        },
        result is Err ==> final(projects)@ == old(projects)@,
{
    if reply is Created {
        assert(final(projects)@.drop_last() =~= old(projects)@);
    }
}

} // verus!
