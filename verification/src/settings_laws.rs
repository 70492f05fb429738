//! What the settings are for: finding pages, exposing the daemon, switching
//! providers, taking back consent, remembering facts and replacing an install,
//! said of what the user then sees or gets.
use crate::controls::AppGrant;
use crate::i18n;
use crate::memory::{Fact, LoadEnd, MemoryView};
use crate::model::{ProviderKind, SessionStatus};
use crate::session::{SessionView, TodoItem, TodoStatus};
use crate::settings;
use crate::settings::{
    BinaryOverride, DaemonPageState, ExposureView, ProviderDot, ProviderNames, ProviderProbe,
    SettingsPage, SettingsRowView,
};
use crate::text;
use crate::todo;
use crate::updater;
use crate::updater::{Layout, Surroundings};
use vstd::prelude::*;

verus! {

// ── Pages ──────────────────────────────────────────────────────────────────

/// Whether a page is listed under a search.
pub open spec fn listed(
    entries: Seq<(Seq<char>, Seq<char>)>,
    query: Seq<char>,
    computer_use: bool,
    page: SettingsPage,
) -> bool {
    &&& page == SettingsPage::ComputerUse ==> computer_use
    &&& query.len() == 0 || text::occurs_in(
        text::lowered(i18n::plain(entries, page.words_key())),
        query,
    )
}

proof fn lemma_listed(
    entries: Seq<(Seq<char>, Seq<char>)>,
    query: Seq<char>,
    computer_use: bool,
    n: int,
    page: SettingsPage,
)
    requires
        0 <= n <= 8,
    ensures
        ({
            let rows = settings::found_rows(entries, query, computer_use, n);
            let at = exists|k: int| 0 <= k < n && #[trigger] settings::all_pages()[k] == page;
            &&& (exists|i: int| 0 <= i < rows.len() && (#[trigger] rows[i]).page == page) <==> at
                && listed(entries, query, computer_use, page)
            &&& forall|i: int|
                0 <= i < rows.len() ==> (#[trigger] rows[i]).label == i18n::plain(
                    entries,
                    rows[i].page.title_key(),
                )
        }),
    decreases n,
{
    if n > 0 {
        lemma_listed(entries, query, computer_use, n - 1, page);
        let above = settings::found_rows(entries, query, computer_use, n - 1);
        let rows = settings::found_rows(entries, query, computer_use, n);
        let last = settings::all_pages()[n - 1];
        if exists|i: int| 0 <= i < above.len() && (#[trigger] above[i]).page == page {
            let i = choose|i: int| 0 <= i < above.len() && (#[trigger] above[i]).page == page;
            assert(rows[i].page == page);
        }
        if listed(entries, query, computer_use, last) {
            assert(rows[above.len() as int].page == last);
        }
        assert forall|i: int| 0 <= i < above.len() implies #[trigger] rows[i] == above[i] by {}
    }
}

/// A search lists every page that is offered and whose words hold it, and no
/// other; an empty one lists every page that is offered.
pub proof fn a_search_lists_what_it_finds(
    entries: Seq<(Seq<char>, Seq<char>)>,
    query: Seq<char>,
    computer_use: bool,
    page: SettingsPage,
)
    ensures
        ({
            let rows = settings::found_rows(entries, query, computer_use, 8);
            (exists|i: int| 0 <= i < rows.len() && (#[trigger] rows[i]).page == page) <==> listed(
                entries,
                query,
                computer_use,
                page,
            )
        }),
{
    lemma_listed(entries, query, computer_use, 8, page);
    let pages = settings::all_pages();
    assert(pages[0] == SettingsPage::General && pages[1] == SettingsPage::Appearance && pages[2]
        == SettingsPage::Providers && pages[3] == SettingsPage::Skills && pages[4]
        == SettingsPage::Memory && pages[5] == SettingsPage::Usage && pages[6]
        == SettingsPage::Daemon && pages[7] == SettingsPage::ComputerUse);
}

proof fn lemma_row(rows: Seq<SettingsRowView>, page: SettingsPage, at: int)
    requires
        0 <= at < rows.len(),
        rows[at].page == page,
        forall|k: int| 0 <= k < at ==> (#[trigger] rows[k]).page != page,
    ensures
        settings::row_of(rows, page) == at,
    decreases rows.len(),
{
    if at > 0 {
        assert(rows[0].page != page);
        let rest = rows.skip(1);
        assert forall|k: int| 0 <= k < at - 1 implies (#[trigger] rest[k]).page != page by {
            assert(rows[k + 1].page != page);
        }
        lemma_row(rest, page, at - 1);
    }
}

proof fn lemma_no_row(rows: Seq<SettingsRowView>, page: SettingsPage)
    requires
        forall|k: int| 0 <= k < rows.len() ==> (#[trigger] rows[k]).page != page,
    ensures
        settings::row_of(rows, page) == -1,
    decreases rows.len(),
{
    if rows.len() > 0 {
        assert(rows[0].page != page);
        let rest = rows.skip(1);
        assert forall|k: int| 0 <= k < rest.len() implies (#[trigger] rest[k]).page != page by {
            assert(rows[k + 1].page != page);
        }
        lemma_no_row(rest, page);
    }
}

/// The arrows go to the next row down or up, and around at the ends.
pub proof fn arrows_go_to_the_next_row(
    rows: Seq<SettingsRowView>,
    current: SettingsPage,
    at: int,
    key: Seq<char>,
)
    requires
        0 <= at < rows.len(),
        rows[at].page == current,
        forall|k: int| 0 <= k < at ==> (#[trigger] rows[k]).page != current,
    ensures
        settings::next_page(rows, current, "down"@) == Some(
            rows[(at + 1) % rows.len() as int].page,
        ),
        settings::next_page(rows, current, "up"@) == Some(
            rows[(at + rows.len() - 1) % rows.len() as int].page,
        ),
        key != "down"@ && key != "up"@ ==> settings::next_page(rows, current, key) is None,
{
    reveal_strlit("down");
    reveal_strlit("up");
    assert("down"@.len() != "up"@.len());
    lemma_row(rows, current, at);
    let n = rows.len() as int;
    if at + 1 < n {
        assert((at + 1) % n == at + 1) by (nonlinear_arith)
            requires
                0 <= at + 1 < n,
        ;
    } else {
        assert((at + 1) % n == 0) by (nonlinear_arith)
            requires
                at + 1 == n,
                n > 0,
        ;
    }
    if at > 0 {
        assert((at + n - 1) % n == at - 1) by (nonlinear_arith)
            requires
                0 <= at - 1 < n,
        ;
    } else {
        assert((at + n - 1) % n == n - 1) by (nonlinear_arith)
            requires
                at == 0,
                n > 0,
        ;
    }
}

/// From a page that the search does not list, down leads to the first row and
/// up to the last.
pub proof fn arrows_enter_the_list(rows: Seq<SettingsRowView>, current: SettingsPage)
    requires
        forall|k: int| 0 <= k < rows.len() ==> (#[trigger] rows[k]).page != current,
    ensures
        rows.len() == 0 ==> settings::next_page(rows, current, "down"@) is None
            && settings::next_page(rows, current, "up"@) is None,
        rows.len() > 0 ==> settings::next_page(rows, current, "down"@) == Some(rows[0].page)
            && settings::next_page(rows, current, "up"@) == Some(rows.last().page),
{
    reveal_strlit("down");
    reveal_strlit("up");
    assert("down"@.len() != "up"@.len());
    lemma_no_row(rows, current);
}

// ── The daemon ─────────────────────────────────────────────────────────────

/// Whether a text has no white space at its ends.
pub open spec fn tight(given: Seq<char>) -> bool {
    given.len() > 0 && !text::is_whitespace(given[0]) && !text::is_whitespace(given.last())
}

/// A port is read back as it is written; nothing outside the range of ports is
/// one, nor is zero.
pub proof fn a_port_is_read_back(value: nat)
    requires
        tight(text::decimal_digits(value)),
    ensures
        0 < value <= 65535 ==> settings::field_port(text::decimal_digits(value)) == Some(
            value as u16,
        ),
        value == 0 || value > 65535 ==> settings::field_port(text::decimal_digits(value)) is None,
{
    crate::text_laws::a_written_number_is_read_back(value, 65535, Seq::empty());
    lemma_untrimmed(text::decimal_digits(value));
}

proof fn lemma_untrimmed(given: Seq<char>)
    requires
        given.len() > 0,
    ensures
        !text::is_whitespace(given[0]) && !text::is_whitespace(given.last()) ==> text::trimmed(
            given,
        ) == given,
{
}

/// Settings for the daemon come of a valid port and valid origins, which they
/// then name; whether it can be reached and its token stay. A bad port is
/// reported before bad origins.
pub proof fn settings_name_their_fields(
    entries: Seq<(Seq<char>, Seq<char>)>,
    current: ExposureView,
    port_field: Seq<char>,
    origins: Result<Seq<Seq<char>>, Seq<char>>,
)
    ensures
        ({
            let named = settings::exposure_named(entries, current, port_field, origins);
            let port = settings::field_port(port_field);
            &&& named is Ok <==> port is Some && origins is Ok
            &&& named is Ok ==> {
                &&& named->Ok_0.port == port->0
                &&& named->Ok_0.allowed_origins == origins->Ok_0
                &&& named->Ok_0.enabled == current.enabled
                &&& named->Ok_0.token == current.token
            }
            &&& port is None ==> named->Err_0 == i18n::plain(entries, "daemon.invalid_port"@)
            &&& port is Some && origins is Err ==> named->Err_0 == origins->Err_0
        }),
{
}

/// Tasks run where one is neither idle nor failed.
pub proof fn tasks_run_where_one_is_busy(sessions: Seq<SessionView>)
    ensures
        settings::any_busy(sessions) <==> exists|i: int|
            0 <= i < sessions.len() && (#[trigger] sessions[i]).status != SessionStatus::Idle
                && sessions[i].status != SessionStatus::Failed,
{
    if exists|i: int|
        0 <= i < sessions.len() && (#[trigger] sessions[i]).status != SessionStatus::Idle
            && sessions[i].status != SessionStatus::Failed {
        let i = choose|i: int|
            0 <= i < sessions.len() && (#[trigger] sessions[i]).status != SessionStatus::Idle
                && sessions[i].status != SessionStatus::Failed;
        assert(sessions[i].status.busy());
    }
}

/// While a change is on its way nothing on the page can be changed, and
/// without changed fields there is nothing to apply. The token is shown only
/// where it was asked for.
pub proof fn a_restart_blocks_the_page(
    entries: Seq<(Seq<char>, Seq<char>)>,
    exposure: ExposureView,
    hostname: Seq<char>,
    state: DaemonPageState,
)
    ensures
        ({
            let shown = settings::local_daemon_shown(entries, exposure, hostname, state);
            &&& shown.exposed == exposure.enabled
            &&& shown.switch_disabled == state.reconfigure_pending
            &&& shown.regenerate_disabled == state.reconfigure_pending
            &&& shown.apply_disabled <==> state.reconfigure_pending || !state.fields_dirty
            &&& state.token_revealed ==> shown.token == exposure.token
            &&& !state.token_revealed ==> forall|other: ExposureView|
                shown.token == #[trigger] settings::local_daemon_shown(
                    entries,
                    other,
                    hostname,
                    state,
                ).token
            &&& shown.websocket_url == "ws://"@ + hostname + ":"@ + text::decimal_digits(
                exposure.port as nat,
            )
        }),
{
}

// ── Providers ──────────────────────────────────────────────────────────────

proof fn lemma_other_kinds(kinds: Seq<ProviderKind>, provider: ProviderKind)
    ensures
        settings::other_kinds(kinds, provider) == kinds.filter(
            |kind: ProviderKind| kind != provider,
        ),
        !settings::other_kinds(kinds, provider).contains(provider),
        forall|other: ProviderKind|
            other != provider ==> (#[trigger] settings::other_kinds(kinds, provider).contains(
                other,
            ) <==> kinds.contains(other)),
    decreases kinds.len(),
{
    reveal(Seq::filter);
    if kinds.len() > 0 {
        let shorter = kinds.drop_last();
        lemma_other_kinds(shorter, provider);
        let rest = settings::other_kinds(shorter, provider);
        assert(kinds =~= shorter.push(kinds.last()));
        broadcast use vstd::seq_lib::lemma_seq_contains_after_push;

        assert forall|other: ProviderKind| kinds.contains(other) <==> shorter.contains(other)
            || kinds.last() == other by {
            assert(shorter.push(kinds.last()).contains(other) <==> shorter.contains(other)
                || kinds.last() == other);
        }
        assert forall|other: ProviderKind| rest.push(kinds.last()).contains(
            other,
        ) <==> rest.contains(other) || kinds.last() == other by {}
    }
}

/// A provider is off after it was switched off and on after it was switched on,
/// whatever it was before; no other provider is switched.
pub proof fn a_switch_moves_one_provider(
    disabled: Seq<ProviderKind>,
    provider: ProviderKind,
    enabled: bool,
    other: ProviderKind,
)
    ensures
        ({
            let after = settings::switched(disabled, provider, enabled);
            &&& after.contains(provider) <==> !enabled
            &&& other != provider ==> (after.contains(other) <==> disabled.contains(other))
        }),
{
    lemma_other_kinds(disabled, provider);
    broadcast use vstd::seq_lib::lemma_seq_contains_after_push;

    assert(disabled.push(provider).contains(provider));
    assert(disabled.push(provider).contains(other) <==> disabled.contains(other) || provider
        == other);
}

/// What stands in for a provider that is off is the first that is on.
pub proof fn the_first_provider_on_stands_in(
    all: Seq<ProviderKind>,
    disabled: Seq<ProviderKind>,
)
    ensures
        settings::first_enabled(all, disabled) is None <==> forall|i: int|
            0 <= i < all.len() ==> disabled.contains(#[trigger] all[i]),
        settings::first_enabled(all, disabled) matches Some(kind) ==> exists|i: int|
            {
                &&& 0 <= i < all.len()
                &&& #[trigger] all[i] == kind
                &&& !disabled.contains(kind)
                &&& forall|k: int| 0 <= k < i ==> disabled.contains(#[trigger] all[k])
            },
    decreases all.len(),
{
    if all.len() > 0 {
        let rest = all.skip(1);
        the_first_provider_on_stands_in(rest, disabled);
        assert forall|i: int| 0 <= i < rest.len() implies #[trigger] rest[i] == all[i + 1] by {}
        assert forall|i: int| 1 <= i < all.len() implies #[trigger] all[i] == rest[i - 1] by {}
        if disabled.contains(all[0]) {
            if let Some(kind) = settings::first_enabled(rest, disabled) {
                let i = choose|i: int|
                    {
                        &&& 0 <= i < rest.len()
                        &&& #[trigger] rest[i] == kind
                        &&& !disabled.contains(kind)
                        &&& forall|k: int| 0 <= k < i ==> disabled.contains(#[trigger] rest[k])
                    };
                assert(all[i + 1] == kind);
            }
        } else {
            assert(all[0] == all[0]);
        }
    }
}

/// A draft moves to the provider that stands in, with that provider's own model
/// and settings; a started task stays, and so does every task of another
/// provider.
pub proof fn only_drafts_move(session: SessionView, provider: ProviderKind, other: ProviderKind)
    ensures
        ({
            let after = settings::moved_draft(session, provider, other);
            let moves = session.provider == provider && !session.started;
            &&& !moves ==> after == session
            &&& moves ==> {
                &&& after.provider == other
                &&& after.model is None
                &&& after.reasoning_effort is None
                &&& after.service_tier is None
                &&& after.context_window is None
                &&& after == (SessionView {
                    provider: other,
                    model: None,
                    reasoning_effort: None,
                    service_tier: None,
                    context_window: None,
                    ..session
                })
            }
        }),
{
}

/// The program that the user names for a provider is the first noted for it,
/// and none is where none is noted.
pub proof fn an_override_is_the_first_noted(
    overrides: Seq<BinaryOverride>,
    provider: ProviderKind,
    at: int,
)
    requires
        0 <= at <= overrides.len(),
        at < overrides.len() ==> overrides[at].provider == provider,
        forall|k: int| 0 <= k < at ==> (#[trigger] overrides[k]).provider != provider,
    ensures
        at < overrides.len() ==> settings::override_of(overrides, provider)
            == overrides[at].path@,
        at == overrides.len() ==> settings::override_of(overrides, provider).len() == 0,
    decreases overrides.len(),
{
    if overrides.len() > 0 && at > 0 {
        assert(overrides[0].provider != provider);
        let rest = overrides.skip(1);
        assert forall|k: int| 0 <= k < at - 1 implies (#[trigger] rest[k]).provider
            != provider by {
            assert(overrides[k + 1].provider != provider);
        }
        an_override_is_the_first_noted(rest, provider, at - 1);
    }
}

/// Only an installed provider can be switched and is shown as ready, unless it
/// is off.
pub proof fn only_an_installed_provider_is_ready(
    entries: Seq<(Seq<char>, Seq<char>)>,
    names: ProviderNames,
    probe: Option<ProviderProbe>,
    shown_path: Option<Seq<char>>,
    version: Option<Seq<char>>,
    disabled: bool,
    expanded: bool,
)
    ensures
        ({
            let shown = settings::provider_shown(
                entries,
                names,
                probe,
                shown_path,
                version,
                disabled,
                expanded,
            );
            let installed = probe is Some && probe->0.installed;
            &&& shown.shows_toggle == installed
            &&& shown.dot == ProviderDot::Ready <==> installed && !disabled
            &&& shown.dot == ProviderDot::SwitchedOff <==> installed && disabled
            &&& shown.dot == ProviderDot::Missing <==> !installed
            &&& shown.enabled == !disabled
            &&& shown.expanded == expanded
            &&& shown.name == names.display_name@
            &&& version is Some ==> shown.version == Some("v"@ + version->0)
            &&& version is None ==> shown.version is None
            &&& settings::found_path(probe) == if installed {
                text::text_view(probe->0.path)
            } else {
                None
            }
        }),
{
}

/// When a check was made is told in minutes up to an hour and in hours after
/// it; a fresh one was made just now.
pub proof fn a_check_is_dated(entries: Seq<(Seq<char>, Seq<char>)>, seconds: u64)
    ensures
        ({
            let label = settings::checked_label(entries, seconds);
            &&& seconds < 90 ==> label == i18n::plain(entries, "providers.checked_just_now"@)
            &&& 90 <= seconds < 3600 ==> label == i18n::counted(
                entries,
                "providers.checked_minutes_ago"@,
                seconds as nat / 60,
            )
            &&& seconds >= 3600 ==> label == i18n::counted(
                entries,
                "providers.checked_hours_ago"@,
                seconds as nat / 3600,
            )
        }),
{
}

/// Consent that is taken back is gone wherever it was noted; every other stays,
/// in order.
pub proof fn taking_back_consent_spares_the_rest(grants: Seq<AppGrant>, key: Seq<char>)
    ensures
        settings::remaining_grants(grants, key) == grants.filter(
            |grant: AppGrant| grant.key@ != key,
        ),
    decreases grants.len(),
{
    let keeps = |grant: AppGrant| grant.key@ != key;
    reveal(Seq::filter);
    if grants.len() > 0 {
        let rest = grants.skip(1);
        taking_back_consent_spares_the_rest(rest, key);
        let first = seq![grants[0]];
        assert(grants =~= first + rest);
        Seq::filter_distributes_over_add(first, rest, keeps);
        assert(first.drop_last() =~= Seq::empty());
        assert(first.drop_last().filter(keeps) =~= Seq::empty());
        assert(first.filter(keeps) =~= if keeps(grants[0]) {
            first
        } else {
            Seq::empty()
        });
        assert(Seq::empty() + rest.filter(keeps) =~= rest.filter(keeps));
    }
}

// ── Facts ──────────────────────────────────────────────────────────────────

/// Facts are read where a project is selected and they are neither being read
/// nor known, or asked for again. A reading is numbered anew, and what is known
/// stays until it ends. Without a project nothing is known or read.
pub proof fn facts_are_read_when_needed(
    memory: MemoryView,
    project: Option<Seq<char>>,
    known: bool,
    force: bool,
)
    requires
        memory.generation < u64::MAX,
    ensures
        ({
            let (after, read) = memory.ensured(project, known, force);
            &&& read <==> project is Some && !memory.pending && (force || !known)
            &&& read ==> {
                &&& after.pending
                &&& after.reading == project
                &&& after.generation == memory.generation + 1
                &&& after.facts == memory.facts
                &&& after.project == memory.project
                &&& known ==> after.delete_arming == memory.delete_arming
                &&& !known ==> after.delete_arming is None
            }
            &&& project is Some && !read ==> after == memory
            &&& project is None ==> {
                &&& after.facts is None
                &&& after.project is None
                &&& after.reading is None
                &&& !after.pending
                &&& after.delete_arming is None
                &&& after.generation == memory.generation
            }
        }),
{
}

/// Facts that were read are taken up where no later reading has begun and their
/// project is still selected. For another project its own are read next, unless
/// they are known; an overtaken reading changes nothing.
pub proof fn read_facts_belong_to_their_project(
    memory: MemoryView,
    generation: u64,
    selected: Option<Seq<char>>,
    same: bool,
    known: bool,
    facts: Seq<Fact>,
)
    requires
        memory.generation < u64::MAX,
    ensures
        ({
            let (after, end) = memory.loaded(generation, selected, same, known, facts);
            let current = memory.generation == generation;
            &&& !current ==> after == memory && end == LoadEnd::Overtaken
            &&& current && same ==> {
                &&& end == LoadEnd::Taken
                &&& after.facts == Some(facts)
                &&& after.project == memory.reading
                &&& after.reading is None
                &&& !after.pending
                &&& after.generation == memory.generation
                &&& after.delete_arming == memory.delete_arming
            }
            &&& current && !same ==> {
                let reads = selected is Some && !known;
                &&& end == LoadEnd::Superseded {
                    next: if reads {
                        Some((memory.generation + 1) as u64)
                    } else {
                        None
                    },
                }
                &&& after.pending == reads
                &&& after.reading == if reads {
                    selected
                } else {
                    None
                }
                &&& selected is Some ==> after.facts == memory.facts && after.project
                    == memory.project
                &&& selected is None ==> after.facts is None
            }
        }),
{
}

// ── Plans ──────────────────────────────────────────────────────────────────

/// What is done of a plan is counted by its completed entries alone: another
/// entry counts one more where it is completed, and otherwise nothing.
pub proof fn completed_entries_count(todos: Seq<TodoItem>, entry: TodoItem)
    ensures
        ({
            let n = todos.len() as int;
            let before = todo::completed_count(todos, n);
            let after = todo::completed_count(todos.push(entry), n + 1);
            &&& before <= n
            &&& after == before + if entry.status == TodoStatus::Completed {
                1int
            } else {
                0
            }
            &&& todo::completed_count(Seq::empty(), 0) == 0
            &&& before == n <==> forall|i: int|
                0 <= i < n ==> (#[trigger] todos[i]).status == TodoStatus::Completed
        }),
{
    lemma_completed_front(todos, entry, todos.len() as int);
    lemma_completed_all(todos, todos.len() as int);
}

proof fn lemma_completed_front(todos: Seq<TodoItem>, entry: TodoItem, n: int)
    requires
        0 <= n <= todos.len(),
    ensures
        todo::completed_count(todos.push(entry), n) == todo::completed_count(todos, n),
    decreases n,
{
    if n > 0 {
        lemma_completed_front(todos, entry, n - 1);
    }
}

proof fn lemma_completed_all(todos: Seq<TodoItem>, n: int)
    requires
        0 <= n <= todos.len(),
    ensures
        todo::completed_count(todos, n) <= n,
        todo::completed_count(todos, n) == n <==> forall|i: int|
            0 <= i < n ==> (#[trigger] todos[i]).status == TodoStatus::Completed,
    decreases n,
{
    if n > 0 {
        lemma_completed_all(todos, n - 1);
        if todos[n - 1].status == TodoStatus::Completed {
            assert((forall|i: int|
                0 <= i < n - 1 ==> (#[trigger] todos[i]).status == TodoStatus::Completed) ==> (
            forall|i: int|
                0 <= i < n ==> (#[trigger] todos[i]).status == TodoStatus::Completed));
        }
    }
}

/// A plan shows its first entries, at most eight, and stays open while an entry
/// waits or is worked on.
pub proof fn a_plan_shows_its_beginning(total: nat, status: TodoStatus)
    ensures
        todo::shown_count(total) <= 8,
        total <= 8 ==> todo::shown_count(total) == total,
        total > 8 ==> todo::shown_count(total) == 8,
        status.open() <==> status != TodoStatus::Completed && status != TodoStatus::Cancelled,
{
}

// ── Replacing an install ───────────────────────────────────────────────────

/// Whether an install can be replaced or can replace one: a directory that is
/// marked as managed, with three programs that can be run.
pub open spec fn sound(layout: Layout) -> bool {
    &&& layout.prefix is Directory
    &&& layout.marker is File
    &&& layout.marker_contents is Some
    &&& layout.marker_contents->0@ == "waku-self-update-v1\n"@
    &&& layout.application is File && layout.application->mode & 0o111 != 0
    &&& layout.daemon is File && layout.daemon->mode & 0o111 != 0
    &&& layout.helper is File && layout.helper->mode & 0o111 != 0
}

/// An install has no problem exactly where it is sound.
pub proof fn a_sound_install_has_no_problem(layout: Layout)
    ensures
        layout.problem() is None <==> sound(layout),
{
    assert(updater::MANAGED_MARKER_CONTENTS@ == "waku-self-update-v1\n"@);
}

/// An update is handed over exactly where the application itself asked for it
/// as an ordinary user, for its own install in the user's directory, with a
/// staged install beside it under its own name, and both are sound.
pub proof fn an_update_is_refused_unless_all_holds(around: Surroundings)
    ensures
        around.refusal() is None <==> {
            &&& around.effective_user != 0
            &&& around.declared_parent == around.actual_parent
            &&& around.install_error is None && around.staged_error is None
            &&& around.parent is Found && around.home is Found
            &&& around.under_home && around.beside
            &&& around.install_name is Some && around.staged_name is Some
            &&& ({
                let prefix = "."@ + around.install_name->0@ + ".update-"@;
                let name = around.staged_name->0@;
                name.len() >= prefix.len() && name.subrange(0, prefix.len() as int) == prefix
            })
            &&& sound(around.install_layout) && sound(around.staged_layout)
            &&& around.running_error is None && around.expected_error is None
            &&& around.same_helper
        },
{
    a_sound_install_has_no_problem(around.install_layout);
    a_sound_install_has_no_problem(around.staged_layout);
}

} // verus!
