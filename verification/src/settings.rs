//! The settings: which pages there are, what they show and what their
//! controls do.
use crate::controls;
use crate::controls::AppGrant;
use crate::i18n;
use crate::i18n::Catalog;
use crate::model::{Id, ProviderKind};
use crate::session;
use crate::session::{AgentSession, SessionView};
use crate::sidebar_view::MenuChoice;
use crate::tasks::{RememberedSettings, RememberedView};
use crate::paths;
use crate::text;
use std::collections::HashMap;
use vstd::prelude::*;

verus! {

// ── Pages ──────────────────────────────────────────────────────────────────

/// A page of the settings.
#[derive(Clone, Copy, Debug, PartialEq, Eq, Structural, Hash)]
pub enum SettingsPage {
    General,
    Appearance,
    Providers,
    Skills,
    Memory,
    Usage,
    Daemon,
    ComputerUse,
}

/// The pages in the order of the navigation.
pub open spec fn all_pages() -> Seq<SettingsPage> {
    seq![
        SettingsPage::General,
        SettingsPage::Appearance,
        SettingsPage::Providers,
        SettingsPage::Skills,
        SettingsPage::Memory,
        SettingsPage::Usage,
        SettingsPage::Daemon,
        SettingsPage::ComputerUse,
    ]
}

impl SettingsPage {
    /// The text that names a page.
    pub open spec fn title_key(self) -> Seq<char> {
        match self {
            SettingsPage::General => "settings.general"@,
            SettingsPage::Appearance => "settings.appearance"@,
            SettingsPage::Providers => "settings.providers"@,
            SettingsPage::Skills => "settings.skills"@,
            SettingsPage::Memory => "settings.memory"@,
            SettingsPage::Usage => "settings.usage"@,
            SettingsPage::Daemon => "settings.daemon"@,
            SettingsPage::ComputerUse => "settings.computer_use"@,
        }
    }

    /// The text whose words a page is found by.
    pub open spec fn words_key(self) -> Seq<char> {
        match self {
            SettingsPage::General => "settings.general_keywords"@,
            SettingsPage::Appearance => "settings.appearance_keywords"@,
            SettingsPage::Providers => "settings.providers_keywords"@,
            SettingsPage::Skills => "settings.skills_keywords"@,
            SettingsPage::Memory => "settings.memory_keywords"@,
            SettingsPage::Usage => "settings.usage_keywords"@,
            SettingsPage::Daemon => "settings.daemon_keywords"@,
            SettingsPage::ComputerUse => "settings.computer_use_keywords"@,
        }
    }

    /// The icon of a page.
    pub open spec fn icon_path(self) -> Seq<char> {
        match self {
            SettingsPage::General => "icons/settings.svg"@,
            SettingsPage::Appearance => "icons/appearance.svg"@,
            SettingsPage::Providers => "icons/bot.svg"@,
            SettingsPage::Skills => "icons/package.svg"@,
            SettingsPage::Memory => "icons/sparkle.svg"@,
            SettingsPage::Usage => "icons/chart-column.svg"@,
            SettingsPage::Daemon => "icons/server.svg"@,
            SettingsPage::ComputerUse => "icons/cursor-spark.svg"@,
        }
    }

    /// The texts and the icon of a page: its title, its words, its icon.
    pub fn texts(self) -> (texts: (&'static str, &'static str, &'static str))
        ensures
            texts.0@ == self.title_key(),
            texts.1@ == self.words_key(),
            texts.2@ == self.icon_path(),
    {
        match self {
            SettingsPage::General => (
                "settings.general",
                "settings.general_keywords",
                "icons/settings.svg",
            ),
            SettingsPage::Appearance => (
                "settings.appearance",
                "settings.appearance_keywords",
                "icons/appearance.svg",
            ),
            SettingsPage::Providers => (
                "settings.providers",
                "settings.providers_keywords",
                "icons/bot.svg",
            ),
            SettingsPage::Skills => (
                "settings.skills",
                "settings.skills_keywords",
                "icons/package.svg",
            ),
            SettingsPage::Memory => (
                "settings.memory",
                "settings.memory_keywords",
                "icons/sparkle.svg",
            ),
            SettingsPage::Usage => (
                "settings.usage",
                "settings.usage_keywords",
                "icons/chart-column.svg",
            ),
            SettingsPage::Daemon => (
                "settings.daemon",
                "settings.daemon_keywords",
                "icons/server.svg",
            ),
            SettingsPage::ComputerUse => (
                "settings.computer_use",
                "settings.computer_use_keywords",
                "icons/cursor-spark.svg",
            ),
        }
    }

    /// Whether the navigation offers a page: control of other applications
    /// only where it is available.
    pub open spec fn offered(self, computer_use_available: bool) -> bool {
        self != SettingsPage::ComputerUse || computer_use_available
    }

    /// Whether the navigation offers a page.
    pub fn is_visible_in_navigation(self, computer_use_available: bool) -> (visible: bool)
        ensures
            visible == self.offered(computer_use_available),
    {
        self != SettingsPage::ComputerUse || computer_use_available
    }
}

/// A row of the settings' navigation.
pub struct SettingsRow {
    pub page: SettingsPage,
    pub label: String,
    pub icon: String,
}

pub struct SettingsRowView {
    pub page: SettingsPage,
    pub label: Seq<char>,
    pub icon: Seq<char>,
}

impl View for SettingsRow {
    type V = SettingsRowView;

    open spec fn view(&self) -> SettingsRowView {
        SettingsRowView { page: self.page, label: self.label@, icon: self.icon@ }
    }
}

/// The views of the rows.
pub open spec fn rows_view(rows: Seq<SettingsRow>) -> Seq<SettingsRowView> {
    rows.map_values(|row: SettingsRow| row@)
}

/// Whether a query finds a page: an empty one finds every page.
pub open spec fn finds(
    entries: Seq<(Seq<char>, Seq<char>)>,
    query: Seq<char>,
    page: SettingsPage,
) -> bool {
    query.len() == 0 || text::occurs_in(text::lowered(i18n::plain(entries, page.words_key())), query)
}

/// The rows for those of the first `n` pages that are offered and found.
pub open spec fn found_rows(
    entries: Seq<(Seq<char>, Seq<char>)>,
    query: Seq<char>,
    computer_use_available: bool,
    n: int,
) -> Seq<SettingsRowView>
    decreases n,
{
    if n <= 0 {
        Seq::empty()
    } else {
        let above = found_rows(entries, query, computer_use_available, n - 1);
        let page = all_pages()[n - 1];
        if page.offered(computer_use_available) && finds(entries, query, page) {
            above.push(
                SettingsRowView {
                    page,
                    label: i18n::plain(entries, page.title_key()),
                    icon: page.icon_path(),
                },
            )
        } else {
            above
        }
    }
}

fn list_pages() -> (pages: Vec<SettingsPage>)
    ensures
        pages@ == all_pages(),
{
    vec![
        SettingsPage::General,
        SettingsPage::Appearance,
        SettingsPage::Providers,
        SettingsPage::Skills,
        SettingsPage::Memory,
        SettingsPage::Usage,
        SettingsPage::Daemon,
        SettingsPage::ComputerUse,
    ]
}

/// The rows of the navigation that a query leaves. The query is one that
/// `settings_search_query` made.
pub fn visible_settings_pages(catalog: &Catalog, query: &str, computer_use_available: bool) -> (rows:
    Vec<SettingsRow>)
    ensures
        rows_view(rows@) == found_rows(catalog@, query@, computer_use_available, 8),
{
    let pages = list_pages();
    let mut rows: Vec<SettingsRow> = Vec::new();
    let mut i: usize = 0;
    assert(rows_view(rows@) =~= Seq::<SettingsRowView>::empty());
    while i < pages.len()
        invariant
            i <= pages@.len(),
            pages@ == all_pages(),
            rows_view(rows@) == found_rows(catalog@, query@, computer_use_available, i as int),
        decreases pages@.len() - i,
    {
        let ghost before = rows_view(rows@);
        let page = pages[i];
        let (label_key, keywords_key, icon) = page.texts();
        if page.is_visible_in_navigation(computer_use_available) {
            let label = catalog.text(label_key);
            let keywords = catalog.text(keywords_key);
            let keywords = text::lower_case(keywords.as_str());
            if query.is_empty() || text::contains_text(keywords.as_str(), query) {
                let row = SettingsRow { page, label, icon: text::owned(icon) };
                let ghost added = row@;
                rows.push(row);
                assert(rows_view(rows@) =~= before.push(added));
            }
        }
        i += 1;
    }
    rows
}

/// What the search looks for: the input without the whitespace around it, in
/// lower case.
pub fn settings_search_query(input: &str) -> (query: String)
    ensures
        query@ == text::lowered(text::trimmed(input@)),
{
    let trimmed = text::trim(input);
    text::lower_case(trimmed.as_str())
}

/// Where a page stands among the rows, or -1.
pub open spec fn row_of(rows: Seq<SettingsRowView>, page: SettingsPage) -> int
    decreases rows.len(),
{
    if rows.len() == 0 {
        -1
    } else if rows[0].page == page {
        0
    } else if row_of(rows.skip(1), page) < 0 {
        -1
    } else {
        row_of(rows.skip(1), page) + 1
    }
}

/// The page that a key leads to from another among the rows.
pub open spec fn next_page(rows: Seq<SettingsRowView>, current: SettingsPage, key: Seq<char>) -> Option<
    SettingsPage,
> {
    let at = row_of(rows, current);
    let count = rows.len();
    if count == 0 {
        None
    } else if key == "down"@ {
        Some(
            rows[if at < 0 || at == count - 1 {
                0
            } else {
                at + 1
            }].page,
        )
    } else if key == "up"@ {
        Some(
            rows[if at <= 0 {
                count - 1
            } else {
                at - 1
            }].page,
        )
    } else {
        None
    }
}

fn find_row(rows: &Vec<SettingsRow>, page: SettingsPage) -> (found: Option<usize>)
    ensures
        match found {
            Some(i) => i < rows@.len() && row_of(rows_view(rows@), page) == i,
            None => row_of(rows_view(rows@), page) < 0,
        },
{
    let ghost views = rows_view(rows@);
    let mut i: usize = 0;
    assert(views.skip(0) =~= views);
    while i < rows.len()
        invariant
            i <= rows@.len(),
            views == rows_view(rows@),
            row_of(views, page) == (if row_of(views.skip(i as int), page) < 0 {
                -1
            } else {
                row_of(views.skip(i as int), page) + i
            }),
        decreases rows@.len() - i,
    {
        assert(views.skip(i as int)[0] == rows@[i as int]@);
        assert(views.skip(i as int).skip(1) =~= views.skip(i + 1));
        if rows[i].page == page {
            return Some(i);
        }
        i += 1;
    }
    assert(views.skip(i as int) =~= Seq::<SettingsRowView>::empty());
    None
}

/// The page that an arrow key leads to: through the rows that the search
/// leaves, around at both ends. A page that the search took away is left for
/// the end that the key comes from. Without a page the general one counts.
pub fn cycle_settings_page(
    catalog: &Catalog,
    query: &str,
    computer_use_available: bool,
    settings_page: Option<SettingsPage>,
    key: &str,
) -> (next: Option<SettingsPage>)
    ensures
        next == next_page(
            found_rows(catalog@, query@, computer_use_available, 8),
            match settings_page {
                Some(page) => page,
                None => SettingsPage::General,
            },
            key@,
        ),
{
    let rows = visible_settings_pages(catalog, query, computer_use_available);
    assert(rows_view(rows@).len() == rows@.len());
    let current_page = match settings_page {
        Some(page) => page,
        None => SettingsPage::General,
    };
    let current = find_row(&rows, current_page);
    proof {
        if let Some(at) = current {
            vstd::arithmetic::div_mod::lemma_small_mod(at as nat, rows@.len());
        }
    }
    match controls::next_picker_highlight(current, rows.len(), key) {
        Some(next) => {
            assert(rows_view(rows@)[next as int] == rows@[next as int]@);
            Some(rows[next].page)
        },
        None => None,
    }
}

proof fn lemma_found_rows(
    entries: Seq<(Seq<char>, Seq<char>)>,
    query: Seq<char>,
    computer_use_available: bool,
    n: int,
)
    requires
        0 <= n <= 8,
    ensures
        forall|i: int|
            0 <= i < found_rows(entries, query, computer_use_available, n).len() ==> ({
                let page = (#[trigger] found_rows(
                    entries,
                    query,
                    computer_use_available,
                    n,
                )[i]).page;
                page.offered(computer_use_available) && finds(entries, query, page)
            }),
    decreases n,
{
    if n > 0 {
        lemma_found_rows(entries, query, computer_use_available, n - 1);
        let above = found_rows(entries, query, computer_use_available, n - 1);
        let rows = found_rows(entries, query, computer_use_available, n);
        assert forall|i: int| 0 <= i < rows.len() implies ({
            let page = (#[trigger] rows[i]).page;
            page.offered(computer_use_available) && finds(entries, query, page)
        }) by {
            if i < above.len() {
                assert(rows[i] == above[i]);
            }
        }
    }
}

proof fn lemma_row_of(rows: Seq<SettingsRowView>, page: SettingsPage)
    ensures
        -1 <= row_of(rows, page) < rows.len(),
    decreases rows.len(),
{
    if rows.len() > 0 {
        lemma_row_of(rows.skip(1), page);
    }
}

/// The arrow keys only lead to pages that the navigation offers and the
/// search finds.
pub proof fn arrows_stay_within_the_search(
    entries: Seq<(Seq<char>, Seq<char>)>,
    query: Seq<char>,
    computer_use_available: bool,
    current: SettingsPage,
    key: Seq<char>,
)
    ensures
        next_page(found_rows(entries, query, computer_use_available, 8), current, key) matches Some(
            page,
        ) ==> page.offered(computer_use_available) && finds(entries, query, page),
{
    let rows = found_rows(entries, query, computer_use_available, 8);
    lemma_found_rows(entries, query, computer_use_available, 8);
    lemma_row_of(rows, current);
}

/// How a page of the settings is laid out.
#[derive(Clone, Copy, Debug, PartialEq, Eq, Structural)]
pub struct PageLayout {
    /// The page takes the whole column, without a title of its own.
    pub owns_column: bool,
    /// The page is a dashboard and wider than a form.
    pub wide: bool,
    /// The page scrolls by itself.
    pub fills_viewport: bool,
    /// A line marks that content has slid under the title bar.
    pub shows_scroll_edge: bool,
}

/// How a page of the settings is laid out. `usage_list` says whether the usage
/// page shows one of its lists, and `scrolled` whether the page has been
/// scrolled.
pub fn page_layout(page: SettingsPage, usage_list: bool, scrolled: bool) -> (layout: PageLayout)
    ensures
        layout == (PageLayout {
            owns_column: page == SettingsPage::Skills,
            wide: page == SettingsPage::Usage,
            fills_viewport: page == SettingsPage::Usage && usage_list,
            shows_scroll_edge: page != SettingsPage::Skills && !(page == SettingsPage::Usage
                && usage_list) && scrolled,
        }),
{
    let fills_viewport = page == SettingsPage::Usage && usage_list;
    PageLayout {
        owns_column: page == SettingsPage::Skills,
        wide: page == SettingsPage::Usage,
        fills_viewport,
        shows_scroll_edge: page != SettingsPage::Skills && !fills_viewport && scrolled,
    }
}

/// What a page of the settings is called.
pub fn settings_page_title(catalog: &Catalog, page: SettingsPage) -> (title: String)
    ensures
        title@ == i18n::plain(catalog@, page.title_key()),
{
    let (key, _, _) = page.texts();
    catalog.text(key)
}

// ── The daemon ─────────────────────────────────────────────────────────────

/// How the daemon can be reached from elsewhere.
pub struct DaemonExposure {
    pub enabled: bool,
    pub port: u16,
    pub allowed_origins: Vec<String>,
    pub token: String,
}

#[verifier::ext_equal]
pub struct ExposureView {
    pub enabled: bool,
    pub port: u16,
    pub allowed_origins: Seq<Seq<char>>,
    pub token: Seq<char>,
}

impl View for DaemonExposure {
    type V = ExposureView;

    open spec fn view(&self) -> ExposureView {
        ExposureView {
            enabled: self.enabled,
            port: self.port,
            allowed_origins: text::texts_view(self.allowed_origins@),
            token: self.token@,
        }
    }
}

/// The port that a field names: a number from one on.
pub open spec fn field_port(input: Seq<char>) -> Option<u16> {
    match text::number_within(text::trimmed(input), 65_535) {
        Some(port) => if port > 0 {
            Some(port as u16)
        } else {
            None
        },
        None => None,
    }
}

/// The settings that the fields name, or what is wrong with them: the port
/// first, then the origins.
pub open spec fn exposure_named(
    entries: Seq<(Seq<char>, Seq<char>)>,
    current: ExposureView,
    port_field: Seq<char>,
    origins: Result<Seq<Seq<char>>, Seq<char>>,
) -> Result<ExposureView, Seq<char>> {
    match field_port(port_field) {
        None => Err(i18n::plain(entries, "daemon.invalid_port"@)),
        Some(port) => match origins {
            Ok(allowed_origins) => Ok(ExposureView { port, allowed_origins, ..current }),
            Err(error) => Err(error),
        },
    }
}

/// The view of the origins that a field names, or of what is wrong with them.
pub open spec fn origins_view(origins: Result<Vec<String>, String>) -> Result<
    Seq<Seq<char>>,
    Seq<char>,
> {
    match origins {
        Ok(origins) => Ok(text::texts_view(origins@)),
        Err(error) => Err(error@),
    }
}

/// The view of settings, or of what is wrong with them.
pub open spec fn exposure_view(settings: Result<DaemonExposure, String>) -> Result<
    ExposureView,
    Seq<char>,
> {
    match settings {
        Ok(settings) => Ok(settings@),
        Err(error) => Err(error@),
    }
}

/// The settings that the fields name, or what is wrong with them. `origins`
/// is what the field of allowed origins holds.
pub fn daemon_exposure_from_fields(
    catalog: &Catalog,
    current: &DaemonExposure,
    port_field: &str,
    origins: Result<Vec<String>, String>,
) -> (settings: Result<DaemonExposure, String>)
    ensures
        exposure_view(settings) == exposure_named(
            catalog@,
            current@,
            port_field@,
            origins_view(origins),
        ),
{
    let trimmed = text::trim(port_field);
    let port: u16 = match text::parse_number(trimmed.as_str(), 65_535) {
        Some(port) => port as u16,
        None => {
            return Err(catalog.text("daemon.invalid_port"));
        },
    };
    if port == 0 {
        return Err(catalog.text("daemon.invalid_port"));
    }
    match origins {
        Ok(allowed_origins) => Ok(
            DaemonExposure {
                enabled: current.enabled,
                port,
                allowed_origins,
                token: current.token.clone(),
            },
        ),
        Err(error) => Err(error),
    }
}

/// Whether two lists of origins are the same.
fn same_origins(a: &Vec<String>, b: &Vec<String>) -> (same: bool)
    ensures
        same == (text::texts_view(a@) == text::texts_view(b@)),
{
    crate::events::same_texts(a, b)
}

/// Whether the fields differ from the settings in force; fields that name no
/// settings do.
pub fn daemon_exposure_fields_dirty(
    current: &DaemonExposure,
    named: &Result<DaemonExposure, String>,
) -> (dirty: bool)
    ensures
        dirty == (match exposure_view(*named) {
            Ok(settings) => settings.port != current.port || settings.allowed_origins
                != current@.allowed_origins,
            Err(_) => true,
        }),
{
    match named {
        Ok(settings) => settings.port != current.port || !same_origins(
            &settings.allowed_origins,
            &current.allowed_origins,
        ),
        Err(_) => true,
    }
}

/// What the user is told of fields that name no settings.
pub open spec fn invalid_settings(entries: Seq<(Seq<char>, Seq<char>)>, error: Seq<char>) -> Seq<
    char,
> {
    i18n::localized(entries, "daemon.invalid_settings"@, seq![i18n::argument("error"@, error)])
}

/// The settings to apply once access is turned on or off: on with what the
/// fields name, off with everything else as it is. Turning it off hides the
/// token again. Where the fields name no settings nothing is applied, and the
/// error is what the user is told.
pub fn set_daemon_exposure_enabled(
    catalog: &Catalog,
    current: &DaemonExposure,
    enabled: bool,
    named: Result<DaemonExposure, String>,
    token_revealed: &mut bool,
) -> (settings: Result<DaemonExposure, String>)
    ensures
        exposure_view(settings) == (if enabled {
            match exposure_view(named) {
                Ok(settings) => Ok(ExposureView { enabled: true, ..settings }),
                Err(error) => Err(invalid_settings(catalog@, error)),
            }
        } else {
            Ok(ExposureView { enabled: false, ..current@ })
        }),
        *final(token_revealed) == (enabled && *old(token_revealed)),
{
    if enabled {
        match named {
            Ok(mut settings) => {
                settings.enabled = true;
                Ok(settings)
            },
            Err(error) => Err(
                catalog.text_with("daemon.invalid_settings", "error", error.as_str()),
            ),
        }
    } else {
        *token_revealed = false;
        Ok(
            DaemonExposure {
                enabled: false,
                port: current.port,
                allowed_origins: text::copy_texts(&current.allowed_origins),
                token: current.token.clone(),
            },
        )
    }
}

/// The settings to apply as the fields name them, or what the user is told
/// where they name none.
pub fn apply_daemon_exposure_fields(
    catalog: &Catalog,
    named: Result<DaemonExposure, String>,
) -> (settings: Result<DaemonExposure, String>)
    ensures
        exposure_view(settings) == (match exposure_view(named) {
            Ok(settings) => Ok(settings),
            Err(error) => Err(invalid_settings(catalog@, error)),
        }),
{
    match named {
        Ok(settings) => Ok(settings),
        Err(error) => Err(catalog.text_with("daemon.invalid_settings", "error", error.as_str())),
    }
}

/// The settings to apply with a new token, which is hidden. Where the fields
/// name no settings nothing changes, and the error is what the user is told.
pub fn regenerate_daemon_token(
    catalog: &Catalog,
    named: Result<DaemonExposure, String>,
    token: String,
    token_revealed: &mut bool,
) -> (settings: Result<DaemonExposure, String>)
    ensures
        exposure_view(settings) == (match exposure_view(named) {
            Ok(settings) => Ok(ExposureView { token: token@, ..settings }),
            Err(error) => Err(invalid_settings(catalog@, error)),
        }),
        *final(token_revealed) == (named is Err && *old(token_revealed)),
{
    match named {
        Ok(mut settings) => {
            settings.token = token;
            *token_revealed = false;
            Ok(settings)
        },
        Err(error) => Err(catalog.text_with("daemon.invalid_settings", "error", error.as_str())),
    }
}

/// What new settings for the daemon lead to.
#[derive(Clone, Copy, Debug, PartialEq, Eq, Structural)]
pub enum ExposureStep {
    /// A change is on its way, or these are the settings in force.
    Nothing,
    /// The daemon belongs to someone else.
    External,
    /// Tasks are running: they have to be stopped first.
    TasksRunning,
    /// The settings are kept; nobody can reach the daemon before or after.
    Store,
    /// The daemon is restarted.
    Restart,
}

/// Whether a session is busy.
pub open spec fn any_busy(sessions: Seq<SessionView>) -> bool {
    exists|i: int| 0 <= i < sessions.len() && (#[trigger] sessions[i]).status.busy()
}

fn some_busy(sessions: &Vec<AgentSession>) -> (busy: bool)
    ensures
        busy == any_busy(session::sessions_view(sessions@)),
{
    let ghost views = session::sessions_view(sessions@);
    let mut i: usize = 0;
    while i < sessions.len()
        invariant
            i <= sessions@.len(),
            views == session::sessions_view(sessions@),
            forall|k: int| 0 <= k < i ==> !(#[trigger] views[k]).status.busy(),
        decreases sessions@.len() - i,
    {
        assert(views[i as int] == sessions@[i as int]@);
        if sessions[i].status.is_busy() {
            return true;
        }
        i += 1;
    }
    false
}

/// What new settings for the daemon lead to. Nothing is restarted under a
/// running task.
pub fn apply_daemon_exposure(
    current: &DaemonExposure,
    settings: &DaemonExposure,
    pending: bool,
    remote: bool,
    sessions: &Vec<AgentSession>,
) -> (step: ExposureStep)
    ensures
        step == if pending || settings@ == current@ {
            ExposureStep::Nothing
        } else if remote {
            ExposureStep::External
        } else if any_busy(session::sessions_view(sessions@)) {
            ExposureStep::TasksRunning
        } else if current.enabled || settings.enabled {
            ExposureStep::Restart
        } else {
            ExposureStep::Store
        },
{
    let same = settings.enabled == current.enabled && settings.port == current.port
        && same_origins(&settings.allowed_origins, &current.allowed_origins) && text::same(
        settings.token.as_str(),
        current.token.as_str(),
    );
    assert(same == (settings@ == current@)) by {
        if same {
            assert(settings@ =~= current@);
        }
    }
    if pending || same {
        ExposureStep::Nothing
    } else if remote {
        ExposureStep::External
    } else if some_busy(sessions) {
        ExposureStep::TasksRunning
    } else if current.enabled || settings.enabled {
        ExposureStep::Restart
    } else {
        ExposureStep::Store
    }
}

/// What the page's fields are filled with once settings are in force.
pub struct ExposureFields {
    pub port: String,
    pub allowed_origins: Vec<String>,
}

/// What follows the restart of the daemon.
pub struct RestartEnd {
    /// What the fields are filled with. The settings are then saved.
    pub fields: Option<ExposureFields>,
    /// What the user is told.
    pub toast: String,
}

/// Take up the answer to a restart of the daemon with other settings. Where
/// it was restarted the settings are in force and no runtime is left; else
/// everything stays, and the user is told why.
pub fn finish_daemon_restart<T>(
    catalog: &Catalog,
    current: &mut DaemonExposure,
    pending: &mut bool,
    runtimes: &mut HashMap<Id, T>,
    applied: DaemonExposure,
    result: Result<(), String>,
) -> (end: RestartEnd)
    ensures
        !*final(pending),
        match result {
            Ok(_) => {
                &&& *final(current) == applied
                &&& final(runtimes)@ == Map::<Id, T>::empty()
                &&& end.toast@ == i18n::plain(catalog@, "daemon.settings_applied"@)
                &&& end.fields matches Some(fields)
                &&& fields.port@ == text::decimal_digits(applied.port as nat)
                &&& text::texts_view(fields.allowed_origins@) == applied@.allowed_origins
            },
            Err(error) => {
                &&& *final(current) == *old(current)
                &&& final(runtimes)@ == old(runtimes)@
                &&& end.toast@ == i18n::localized(
                    catalog@,
                    "daemon.restart_failed"@,
                    seq![i18n::argument("error"@, error@)],
                )
                &&& end.fields is None
            },
        },
{
    *pending = false;
    match result {
        Ok(_) => {
            let fields = ExposureFields {
                port: text::decimal(applied.port as u64),
                allowed_origins: text::copy_texts(&applied.allowed_origins),
            };
            *current = applied;
            runtimes.clear();
            RestartEnd { fields: Some(fields), toast: catalog.text("daemon.settings_applied") }
        },
        Err(error) => RestartEnd {
            fields: None,
            toast: catalog.text_with("daemon.restart_failed", "error", error.as_str()),
        },
    }
}

/// A button that copies something.
pub struct CopyButton {
    pub icon: String,
    pub label: String,
}

pub struct CopyButtonView {
    pub icon: Seq<char>,
    pub label: Seq<char>,
}

impl View for CopyButton {
    type V = CopyButtonView;

    open spec fn view(&self) -> CopyButtonView {
        CopyButtonView { icon: self.icon@, label: self.label@ }
    }
}

/// A button that copies something: it says so once it has.
pub open spec fn copy_shown(entries: Seq<(Seq<char>, Seq<char>)>, copied: bool) -> CopyButtonView {
    CopyButtonView {
        icon: if copied {
            "icons/check.svg"@
        } else {
            "icons/copy.svg"@
        },
        label: i18n::plain(
            entries,
            if copied {
                "common.copied"@
            } else {
                "common.copy"@
            },
        ),
    }
}

/// A button that copies something.
pub fn copy_button(catalog: &Catalog, copied: bool) -> (button: CopyButton)
    ensures
        button@ == copy_shown(catalog@, copied),
{
    if copied {
        CopyButton { icon: text::owned("icons/check.svg"), label: catalog.text("common.copied") }
    } else {
        CopyButton { icon: text::owned("icons/copy.svg"), label: catalog.text("common.copy") }
    }
}

/// What the page for the daemon shows of a daemon of one's own.
pub struct LocalDaemonPanel {
    pub exposed: bool,
    /// The switch cannot be used while a change is on its way.
    pub switch_disabled: bool,
    pub status: String,
    pub apply_disabled: bool,
    pub apply_label: String,
    pub websocket_url: String,
    pub copy_url: CopyButton,
    pub token: String,
    pub reveal_icon: String,
    pub reveal_tooltip: String,
    pub copy_token: CopyButton,
    pub regenerate_disabled: bool,
}

pub struct LocalDaemonView {
    pub exposed: bool,
    pub switch_disabled: bool,
    pub status: Seq<char>,
    pub apply_disabled: bool,
    pub apply_label: Seq<char>,
    pub websocket_url: Seq<char>,
    pub copy_url: CopyButtonView,
    pub token: Seq<char>,
    pub reveal_icon: Seq<char>,
    pub reveal_tooltip: Seq<char>,
    pub copy_token: CopyButtonView,
    pub regenerate_disabled: bool,
}

impl View for LocalDaemonPanel {
    type V = LocalDaemonView;

    open spec fn view(&self) -> LocalDaemonView {
        LocalDaemonView {
            exposed: self.exposed,
            switch_disabled: self.switch_disabled,
            status: self.status@,
            apply_disabled: self.apply_disabled,
            apply_label: self.apply_label@,
            websocket_url: self.websocket_url@,
            copy_url: self.copy_url@,
            token: self.token@,
            reveal_icon: self.reveal_icon@,
            reveal_tooltip: self.reveal_tooltip@,
            copy_token: self.copy_token@,
            regenerate_disabled: self.regenerate_disabled,
        }
    }
}

/// What stands in place of a token that is hidden, whatever the token is.
pub open spec fn hidden_token() -> Seq<char> {
    "••••••••••••••••••••••••••••••••"@
}

/// What the state of the page's controls is.
#[derive(Clone, Copy, Debug, PartialEq, Eq, Structural)]
pub struct DaemonPageState {
    pub reconfigure_pending: bool,
    pub token_revealed: bool,
    pub url_copied: bool,
    pub token_copied: bool,
    pub fields_dirty: bool,
}

/// What the page for the daemon shows of a daemon of one's own.
pub open spec fn local_daemon_shown(
    entries: Seq<(Seq<char>, Seq<char>)>,
    exposure: ExposureView,
    hostname: Seq<char>,
    state: DaemonPageState,
) -> LocalDaemonView {
    let pending = state.reconfigure_pending;
    LocalDaemonView {
        exposed: exposure.enabled,
        switch_disabled: pending,
        status: i18n::plain(
            entries,
            if pending {
                "daemon.status_restarting"@
            } else if exposure.enabled {
                "daemon.status_exposed"@
            } else {
                "daemon.status_local"@
            },
        ),
        apply_disabled: pending || !state.fields_dirty,
        apply_label: i18n::plain(
            entries,
            if pending {
                "daemon.restarting"@
            } else {
                "daemon.apply"@
            },
        ),
        websocket_url: "ws://"@ + hostname + ":"@ + text::decimal_digits(exposure.port as nat),
        copy_url: copy_shown(entries, state.url_copied),
        token: if state.token_revealed {
            exposure.token
        } else {
            hidden_token()
        },
        reveal_icon: if state.token_revealed {
            "icons/eye-off.svg"@
        } else {
            "icons/eye.svg"@
        },
        reveal_tooltip: i18n::plain(
            entries,
            if state.token_revealed {
                "daemon.hide_token"@
            } else {
                "daemon.reveal_token"@
            },
        ),
        copy_token: copy_shown(entries, state.token_copied),
        regenerate_disabled: pending,
    }
}

fn websocket_address(exposure: &DaemonExposure, hostname: &str) -> (url: String)
    ensures
        url@ == "ws://"@ + hostname@ + ":"@ + text::decimal_digits(exposure.port as nat),
{
    let mut url = text::prefixed("ws://", hostname);
    url.append(":");
    let port = text::decimal(exposure.port as u64);
    url.append(port.as_str());
    url
}

/// What the page for the daemon shows: nothing but a note about a daemon that
/// belongs to someone else.
pub fn daemon_settings(
    catalog: &Catalog,
    remote: bool,
    exposure: &DaemonExposure,
    hostname: &str,
    state: DaemonPageState,
) -> (panel: Option<LocalDaemonPanel>)
    ensures
        remote ==> panel is None,
        !remote ==> (panel matches Some(panel) && panel@ == local_daemon_shown(
            catalog@,
            exposure@,
            hostname@,
            state,
        )),
{
    if remote {
        return None;
    }
    let pending = state.reconfigure_pending;
    let websocket_url = websocket_address(exposure, hostname);
    Some(
        LocalDaemonPanel {
            exposed: exposure.enabled,
            switch_disabled: pending,
            status: if pending {
                catalog.text("daemon.status_restarting")
            } else if exposure.enabled {
                catalog.text("daemon.status_exposed")
            } else {
                catalog.text("daemon.status_local")
            },
            apply_disabled: pending || !state.fields_dirty,
            apply_label: if pending {
                catalog.text("daemon.restarting")
            } else {
                catalog.text("daemon.apply")
            },
            websocket_url,
            copy_url: copy_button(catalog, state.url_copied),
            token: if state.token_revealed {
                exposure.token.clone()
            } else {
                text::owned("••••••••••••••••••••••••••••••••")
            },
            reveal_icon: if state.token_revealed {
                text::owned("icons/eye-off.svg")
            } else {
                text::owned("icons/eye.svg")
            },
            reveal_tooltip: if state.token_revealed {
                catalog.text("daemon.hide_token")
            } else {
                catalog.text("daemon.reveal_token")
            },
            copy_token: copy_button(catalog, state.token_copied),
            regenerate_disabled: pending,
        },
    )
}

/// What a button on the page for the daemon copies.
#[derive(Clone, Copy, Debug, PartialEq, Eq, Structural)]
pub enum DaemonCopy {
    Url,
    Token,
}

/// What a button on the page for the daemon copies: the address as it is
/// shown, or the token itself, whether or not it is hidden.
pub fn daemon_copied(target: DaemonCopy, exposure: &DaemonExposure, hostname: &str) -> (copied:
    String)
    ensures
        copied@ == match target {
            DaemonCopy::Url => "ws://"@ + hostname@ + ":"@ + text::decimal_digits(
                exposure.port as nat,
            ),
            DaemonCopy::Token => exposure.token@,
        },
{
    match target {
        DaemonCopy::Url => websocket_address(exposure, hostname),
        DaemonCopy::Token => exposure.token.clone(),
    }
}

/// A hidden token shows nothing of itself: whatever it is, the page is the
/// same.
pub proof fn a_hidden_token_stays_hidden(
    entries: Seq<(Seq<char>, Seq<char>)>,
    exposure: ExposureView,
    other_token: Seq<char>,
    hostname: Seq<char>,
    state: DaemonPageState,
)
    requires
        !state.token_revealed,
    ensures
        local_daemon_shown(entries, exposure, hostname, state) == local_daemon_shown(
            entries,
            ExposureView { token: other_token, ..exposure },
            hostname,
            state,
        ),
{
}

// ── Appearance ─────────────────────────────────────────────────────────────

/// A control that offers several values.
pub struct Selector {
    pub id: String,
    pub title: String,
    pub description: String,
    /// What is selected is called.
    pub label: String,
    pub choices: Vec<MenuChoice>,
}

/// Whether a selector offers the given values with the right one marked.
pub open spec fn selects(
    selector: Selector,
    id: Seq<char>,
    title: Seq<char>,
    description: Seq<char>,
    offered: Offered,
) -> bool {
    &&& selector.id@ == id
    &&& selector.title@ == title
    &&& selector.description@ == description
    &&& selector.label@ == offered.current.label@
    &&& selector.choices@.len() == offered.values@.len()
    &&& forall|i: int|
        0 <= i < offered.values@.len() ==> (#[trigger] selector.choices@[i]).label@
            == offered.values@[i].label@ && selector.choices@[i].selected == (
        offered.values@[i].value == offered.current.value)
}

/// A value of a control: a theme or a language by its number, a size of type
/// by its length.
pub struct OfferedValue {
    pub value: i64,
    /// What it is called.
    pub label: String,
}

/// The value of a control that is in force, and those that it offers.
pub struct Offered {
    pub current: OfferedValue,
    pub values: Vec<OfferedValue>,
}

fn selector(id: &str, title: String, description: String, offered: &Offered) -> (result: Selector)
    ensures
        selects(
            result,
            id@,
            title@,
            description@,
            *offered,
        ),
{
    let mut choices: Vec<MenuChoice> = Vec::new();
    let mut i: usize = 0;
    while i < offered.values.len()
        invariant
            i <= offered.values@.len(),
            choices@.len() == i,
            forall|k: int|
                0 <= k < i ==> (#[trigger] choices@[k]).label@ == offered.values@[k].label@
                    && choices@[k].selected == (offered.values@[k].value
                    == offered.current.value),
        decreases offered.values@.len() - i,
    {
        let selected = offered.values[i].value == offered.current.value;
        choices.push(MenuChoice { label: offered.values[i].label.clone(), selected });
        i += 1;
    }
    Selector {
        id: text::owned(id),
        title,
        description,
        label: offered.current.label.clone(),
        choices,
    }
}

/// What the page for the appearance shows, from top to bottom.
pub struct AppearancePanel {
    pub theme: Selector,
    pub language: Selector,
    pub ui_font_size: Selector,
    pub code_font_size: Selector,
}

/// What the page for the appearance shows: the theme, the language and the
/// two sizes of type, each with the value in force marked.
pub fn appearance_settings(
    catalog: &Catalog,
    theme: &Offered,
    language: &Offered,
    ui_font_size: &Offered,
    code_font_size: &Offered,
) -> (panel: AppearancePanel)
    ensures
        selects(
            panel.theme,
            "theme-selector"@,
            i18n::plain(catalog@, "settings.theme"@),
            i18n::plain(catalog@, "settings.theme_description"@),
            *theme,
        ),
        selects(
            panel.language,
            "language-selector"@,
            i18n::plain(catalog@, "language.title"@),
            i18n::plain(catalog@, "language.description"@),
            *language,
        ),
        selects(
            panel.ui_font_size,
            "ui-font-size-selector"@,
            i18n::plain(catalog@, "settings.ui_font_size"@),
            i18n::plain(catalog@, "settings.ui_font_size_description"@),
            *ui_font_size,
        ),
        selects(
            panel.code_font_size,
            "code-font-size-selector"@,
            i18n::plain(catalog@, "settings.code_font_size"@),
            i18n::plain(catalog@, "settings.code_font_size_description"@),
            *code_font_size,
        ),
{
    AppearancePanel {
        theme: selector(
            "theme-selector",
            catalog.text("settings.theme"),
            catalog.text("settings.theme_description"),
            theme,
        ),
        language: selector(
            "language-selector",
            catalog.text("language.title"),
            catalog.text("language.description"),
            language,
        ),
        ui_font_size: selector(
            "ui-font-size-selector",
            catalog.text("settings.ui_font_size"),
            catalog.text("settings.ui_font_size_description"),
            ui_font_size,
        ),
        code_font_size: selector(
            "code-font-size-selector",
            catalog.text("settings.code_font_size"),
            catalog.text("settings.code_font_size_description"),
            code_font_size,
        ),
    }
}

/// Choose a theme; whether it is another one, which is then applied and saved.
pub fn set_theme_preference(current: &mut i64, preference: i64) -> (changed: bool)
    ensures
        changed == (*old(current) != preference),
        *final(current) == preference,
{
    let changed = *current != preference;
    *current = preference;
    changed
}

/// What the fields say while they are empty.
pub struct Placeholders {
    pub composer: String,
    pub model_search: String,
    pub branch_search: String,
    pub branch_create: String,
    pub settings_search: String,
    pub skills_search: String,
    pub memory: String,
    pub provider_path: String,
    pub usage_project_filter: String,
}

/// Whether the fields speak the language of a catalog.
pub open spec fn speaks(
    entries: Seq<(Seq<char>, Seq<char>)>,
    placeholders: Placeholders,
) -> bool {
    &&& placeholders.composer@ == i18n::plain(entries, "input.do_anything"@)
    &&& placeholders.model_search@ == i18n::plain(entries, "input.search_models"@)
    &&& placeholders.branch_search@ == i18n::plain(entries, "input.search_branches"@)
    &&& placeholders.branch_create@ == i18n::plain(entries, "input.new_branch_name"@)
    &&& placeholders.settings_search@ == i18n::plain(entries, "settings.search"@)
    &&& placeholders.skills_search@ == i18n::plain(entries, "skills.search"@)
    &&& placeholders.memory@ == i18n::plain(entries, "memory.add_placeholder"@)
    &&& placeholders.provider_path@ == i18n::plain(entries, "input.detected_automatically"@)
    &&& placeholders.usage_project_filter@ == i18n::plain(entries, "input.filter_projects"@)
}

/// Choose a language; where it is another one, what the fields say in it.
/// `catalog` holds the texts of the language that is chosen.
pub fn set_language(catalog: &Catalog, current: &mut i64, language: i64) -> (placeholders: Option<
    Placeholders,
>)
    ensures
        placeholders is Some <==> *old(current) != language,
        placeholders matches Some(placeholders) ==> speaks(catalog@, placeholders),
        *final(current) == language,
{
    if *current == language {
        return None;
    }
    *current = language;
    Some(
        Placeholders {
            composer: catalog.text("input.do_anything"),
            model_search: catalog.text("input.search_models"),
            branch_search: catalog.text("input.search_branches"),
            branch_create: catalog.text("input.new_branch_name"),
            settings_search: catalog.text("settings.search"),
            skills_search: catalog.text("skills.search"),
            memory: catalog.text("memory.add_placeholder"),
            provider_path: catalog.text("input.detected_automatically"),
            usage_project_filter: catalog.text("input.filter_projects"),
        },
    )
}

// ── Providers ──────────────────────────────────────────────────────────────

/// What has been found of a provider's program.
pub struct ProviderProbe {
    pub installed: bool,
    pub path: Option<String>,
    pub model_count: u64,
    pub catalog_error: Option<String>,
}

/// How a provider is called.
pub struct ProviderNames {
    pub id: String,
    pub display_name: String,
    pub short_name: String,
    pub command: String,
}

/// How well a provider can be used.
#[derive(Clone, Copy, Debug, PartialEq, Eq, Structural)]
pub enum ProviderDot {
    Missing,
    SwitchedOff,
    Ready,
}

/// When providers were last looked for.
pub open spec fn checked_label(entries: Seq<(Seq<char>, Seq<char>)>, seconds: u64) -> Seq<char> {
    if seconds < 90 {
        i18n::plain(entries, "providers.checked_just_now"@)
    } else if seconds < 3_600 {
        i18n::counted(entries, "providers.checked_minutes_ago"@, (seconds / 60) as nat)
    } else {
        i18n::counted(entries, "providers.checked_hours_ago"@, (seconds / 3_600) as nat)
    }
}

/// When providers were last looked for.
pub fn detection_checked_label(catalog: &Catalog, seconds: u64) -> (label: String)
    ensures
        label@ == checked_label(catalog@, seconds),
{
    if seconds < 90 {
        catalog.text("providers.checked_just_now")
    } else if seconds < 3_600 {
        catalog.text_with_count("providers.checked_minutes_ago", seconds / 60)
    } else {
        catalog.text_with_count("providers.checked_hours_ago", seconds / 3_600)
    }
}

/// A path in which the part below the home directory, if it lies there,
/// stands behind a tilde.
pub open spec fn abbreviated(path: Seq<char>, below_home: Option<Seq<char>>) -> Seq<char> {
    match below_home {
        Some(rest) => if rest.len() == 0 {
            "~"@
        } else {
            "~/"@ + rest
        },
        None => path,
    }
}

/// A path in which the part below the home directory stands behind a tilde.
pub fn abbreviate_path(path: &str, below_home: &Option<String>) -> (shown: String)
    ensures
        shown@ == abbreviated(path@, text::text_view(*below_home)),
{
    match below_home {
        Some(rest) => {
            if rest.as_str().is_empty() {
                text::owned("~")
            } else {
                text::prefixed("~/", rest.as_str())
            }
        },
        None => text::owned(path),
    }
}

/// Whether this is what may be left of a path below a home directory. Where
/// the two paths do not settle it, the platform's rules for paths do.
pub open spec fn below(path: Seq<char>, home: Option<Seq<char>>, rest: Option<Seq<char>>) -> bool {
    match home {
        Some(home) => {
            &&& paths::surely_under(path, home) ==> rest is Some
            &&& paths::surely_outside(path, home) ==> rest is None
            &&& path == home ==> (rest matches Some(rest) && rest.len() == 0)
            &&& paths::leaves_its_text(path, home) ==> rest == Some(paths::remainder(path, home))
            &&& rest matches Some(rest) ==> text::occurs_in(path, rest)
        },
        None => rest is None,
    }
}

/// A path in which only the home directory is abbreviated. Whether the path
/// lies there depends on the platform's rules for paths.
pub fn abbreviate_home_path(path: &str, home: &Option<String>) -> (shown: String)
    ensures
        exists|rest: Option<Seq<char>>|
            below(path@, text::text_view(*home), rest) && shown@ == #[trigger] abbreviated(
                path@,
                rest,
            ),
{
    let rest = match home {
        Some(home) => paths::path_under(path, home.as_str()),
        None => None,
    };
    assert(below(path@, text::text_view(*home), text::text_view(rest)));
    abbreviate_path(path, &rest)
}

/// What a provider's row says about it. `shown_path` is where its program is.
pub open spec fn provider_detail(
    entries: Seq<(Seq<char>, Seq<char>)>,
    names: ProviderNames,
    probe: Option<ProviderProbe>,
    shown_path: Option<Seq<char>>,
    disabled: bool,
) -> Seq<char> {
    if probe is Some && probe->0.installed {
        let probe = probe->0;
        let path = match shown_path {
            Some(path) => seq![path],
            None => Seq::empty(),
        };
        let state = if disabled {
            seq![i18n::plain(entries, "providers.disabled_for_new_tasks"@)]
        } else {
            match probe.catalog_error {
                Some(error) => seq![error@],
                None => if probe.model_count == 0 {
                    Seq::empty()
                } else if probe.model_count == 1 {
                    seq![i18n::counted(entries, "providers.model_count_one"@, 1)]
                } else {
                    seq![
                        i18n::counted(
                            entries,
                            "providers.model_count_many"@,
                            probe.model_count as nat,
                        ),
                    ]
                },
            }
        };
        text::joined(path + state, "  ·  "@)
    } else {
        i18n::localized(
            entries,
            "providers.not_detected_as"@,
            seq![i18n::argument("command"@, names.command@)],
        )
    }
}

/// What a provider's row shows.
pub struct ProviderRow {
    pub toggle_id: String,
    pub expand_id: String,
    pub expand_icon: String,
    pub name: String,
    pub version: Option<String>,
    pub detail: String,
    pub dot: ProviderDot,
    pub enabled: bool,
    /// Only a provider that is installed can be switched.
    pub shows_toggle: bool,
    pub expanded: bool,
}

pub struct ProviderRowView {
    pub toggle_id: Seq<char>,
    pub expand_id: Seq<char>,
    pub expand_icon: Seq<char>,
    pub name: Seq<char>,
    pub version: Option<Seq<char>>,
    pub detail: Seq<char>,
    pub dot: ProviderDot,
    pub enabled: bool,
    pub shows_toggle: bool,
    pub expanded: bool,
}

impl View for ProviderRow {
    type V = ProviderRowView;

    open spec fn view(&self) -> ProviderRowView {
        ProviderRowView {
            toggle_id: self.toggle_id@,
            expand_id: self.expand_id@,
            expand_icon: self.expand_icon@,
            name: self.name@,
            version: text::text_view(self.version),
            detail: self.detail@,
            dot: self.dot,
            enabled: self.enabled,
            shows_toggle: self.shows_toggle,
            expanded: self.expanded,
        }
    }
}

/// What a provider's row shows.
pub open spec fn provider_shown(
    entries: Seq<(Seq<char>, Seq<char>)>,
    names: ProviderNames,
    probe: Option<ProviderProbe>,
    shown_path: Option<Seq<char>>,
    version: Option<Seq<char>>,
    disabled: bool,
    expanded: bool,
) -> ProviderRowView {
    let installed = probe matches Some(probe) && probe.installed;
    ProviderRowView {
        toggle_id: "provider-enabled-"@ + names.id@,
        expand_id: "provider-expand-"@ + names.id@,
        expand_icon: if expanded {
            "icons/chevron-down.svg"@
        } else {
            "icons/chevron-right.svg"@
        },
        name: names.display_name@,
        version: match version {
            Some(version) => Some("v"@ + version),
            None => None,
        },
        detail: provider_detail(entries, names, probe, shown_path, disabled),
        dot: if !installed {
            ProviderDot::Missing
        } else if disabled {
            ProviderDot::SwitchedOff
        } else {
            ProviderDot::Ready
        },
        enabled: !disabled,
        shows_toggle: installed,
        expanded,
    }
}

/// The value of an optional reference.
pub open spec fn probe_of(probe: Option<&ProviderProbe>) -> Option<ProviderProbe> {
    match probe {
        Some(probe) => Some(*probe),
        None => None,
    }
}

fn describe_provider(
    catalog: &Catalog,
    names: &ProviderNames,
    probe: Option<&ProviderProbe>,
    shown_path: &Option<String>,
    disabled: bool,
) -> (detail: String)
    ensures
        detail@ == provider_detail(
            catalog@,
            *names,
            probe_of(probe),
            text::text_view(*shown_path),
            disabled,
        ),
{
    let probe = match probe {
        Some(probe) => if probe.installed {
            probe
        } else {
            return catalog.text_with(
                "providers.not_detected_as",
                "command",
                names.command.as_str(),
            );
        },
        None => {
            return catalog.text_with(
                "providers.not_detected_as",
                "command",
                names.command.as_str(),
            );
        },
    };
    let mut parts: Vec<String> = Vec::new();
    let ghost mut shown: Seq<Seq<char>> = Seq::empty();
    assert(text::texts_view(parts@) =~= shown);
    if let Some(path) = shown_path {
        parts.push(path.clone());
        proof {
            shown = seq![path@];
        }
        assert(text::texts_view(parts@) =~= shown);
    }
    let ghost path_part = shown;
    let state: Option<String> = if disabled {
        Some(catalog.text("providers.disabled_for_new_tasks"))
    } else if let Some(error) = &probe.catalog_error {
        Some(error.clone())
    } else if probe.model_count == 0 {
        None
    } else if probe.model_count == 1 {
        Some(catalog.text_with_count("providers.model_count_one", 1))
    } else {
        Some(catalog.text_with_count("providers.model_count_many", probe.model_count))
    };
    match state {
        Some(state) => {
            let ghost said = state@;
            parts.push(state);
            assert(text::texts_view(parts@) =~= path_part + seq![said]);
        },
        None => {
            assert(path_part + Seq::<Seq<char>>::empty() =~= path_part);
        },
    }
    text::join(&parts, "  ·  ")
}

/// What a provider's row shows. `shown_path` is where its program is.
pub fn provider_row_for(
    catalog: &Catalog,
    names: &ProviderNames,
    probe: Option<&ProviderProbe>,
    shown_path: &Option<String>,
    version: &Option<String>,
    disabled: bool,
    expanded: bool,
) -> (row: ProviderRow)
    ensures
        row@ == provider_shown(
            catalog@,
            *names,
            probe_of(probe),
            text::text_view(*shown_path),
            text::text_view(*version),
            disabled,
            expanded,
        ),
{
    let installed = match probe {
        Some(probe) => probe.installed,
        None => false,
    };
    ProviderRow {
        toggle_id: text::prefixed("provider-enabled-", names.id.as_str()),
        expand_id: text::prefixed("provider-expand-", names.id.as_str()),
        expand_icon: if expanded {
            text::owned("icons/chevron-down.svg")
        } else {
            text::owned("icons/chevron-right.svg")
        },
        name: names.display_name.clone(),
        version: match version {
            Some(version) => Some(text::prefixed("v", version.as_str())),
            None => None,
        },
        detail: describe_provider(catalog, names, probe, shown_path, disabled),
        dot: if !installed {
            ProviderDot::Missing
        } else if disabled {
            ProviderDot::SwitchedOff
        } else {
            ProviderDot::Ready
        },
        enabled: !disabled,
        shows_toggle: installed,
        expanded,
    }
}

/// What a provider's row shows, with the home directory abbreviated.
pub fn provider_row(
    catalog: &Catalog,
    names: &ProviderNames,
    probe: Option<&ProviderProbe>,
    home: &Option<String>,
    version: &Option<String>,
    disabled: bool,
    expanded: bool,
) -> (row: ProviderRow)
    ensures
        exists|shown_path: Option<Seq<char>>|
            row@ == #[trigger] provider_shown(
                catalog@,
                *names,
                probe_of(probe),
                shown_path,
                text::text_view(*version),
                disabled,
                expanded,
            ) && (shown_path is Some <==> (probe matches Some(probe) && probe.installed
                && probe.path is Some)) && (shown_path matches Some(shown)
                ==> exists|rest: Option<Seq<char>>|
                below(probe->0.path->0@, text::text_view(*home), rest) && shown
                    == #[trigger] abbreviated(probe->0.path->0@, rest)),
{
    let shown_path: Option<String> = match probe {
        Some(probe) => if probe.installed {
            match &probe.path {
                Some(path) => Some(abbreviate_home_path(path.as_str(), home)),
                None => None,
            }
        } else {
            None
        },
        None => None,
    };
    provider_row_for(catalog, names, probe, &shown_path, version, disabled, expanded)
}

/// What the button that looks for providers again says, and when they were
/// last looked for. While they are being looked for the second says nothing.
pub fn provider_refresh_labels(catalog: &Catalog, checking: bool, checked_ago: Option<u64>) -> (labels:
    (String, Option<String>))
    ensures
        labels.0@ == i18n::plain(
            catalog@,
            if checking {
                "common.checking"@
            } else {
                "common.refresh"@
            },
        ),
        text::text_view(labels.1) == (match checked_ago {
            Some(seconds) => if checking {
                None
            } else {
                Some(checked_label(catalog@, seconds))
            },
            None => None,
        }),
{
    let label = if checking {
        catalog.text("common.checking")
    } else {
        catalog.text("common.refresh")
    };
    let checked = match checked_ago {
        Some(seconds) => if checking {
            None
        } else {
            Some(detection_checked_label(catalog, seconds))
        },
        None => None,
    };
    (label, checked)
}

/// What stands below the field for a provider's program.
pub open spec fn override_caption(
    entries: Seq<(Seq<char>, Seq<char>)>,
    command: Seq<char>,
    overridden: bool,
    found_path: Option<Seq<char>>,
) -> Seq<char> {
    match (overridden, found_path) {
        (true, Some(path)) => i18n::localized(
            entries,
            "providers.using_override"@,
            seq![i18n::argument("path"@, path)],
        ),
        (true, None) => i18n::plain(entries, "providers.invalid_override"@),
        (false, Some(path)) => i18n::localized(
            entries,
            "providers.detected_at"@,
            seq![i18n::argument("path"@, path)],
        ),
        (false, None) => i18n::localized(
            entries,
            "providers.searches_path"@,
            seq![i18n::argument("command"@, command)],
        ),
    }
}

/// Where a provider's program has been found.
pub open spec fn found_path(probe: Option<ProviderProbe>) -> Option<Seq<char>> {
    match probe {
        Some(probe) => if probe.installed {
            text::text_view(probe.path)
        } else {
            None
        },
        None => None,
    }
}

/// What stands below the field for a provider's program: which program is
/// used and why.
pub fn provider_override_caption(
    catalog: &Catalog,
    names: &ProviderNames,
    overridden: bool,
    probe: Option<&ProviderProbe>,
) -> (caption: String)
    ensures
        caption@ == override_caption(
            catalog@,
            names.command@,
            overridden,
            found_path(probe_of(probe)),
        ),
{
    let path: Option<String> = match probe {
        Some(probe) => if probe.installed {
            text::copy_text(&probe.path)
        } else {
            None
        },
        None => None,
    };
    match path {
        Some(path) => {
            if overridden {
                catalog.text_with("providers.using_override", "path", path.as_str())
            } else {
                catalog.text_with("providers.detected_at", "path", path.as_str())
            }
        },
        None => {
            if overridden {
                catalog.text("providers.invalid_override")
            } else {
                catalog.text_with("providers.searches_path", "command", names.command.as_str())
            }
        },
    }
}

/// The program that the user wants for a provider.
pub struct BinaryOverride {
    pub provider: ProviderKind,
    pub path: String,
}

/// The program that the user wants for a provider, or an empty text.
pub open spec fn override_of(overrides: Seq<BinaryOverride>, provider: ProviderKind) -> Seq<char>
    decreases overrides.len(),
{
    if overrides.len() == 0 {
        Seq::empty()
    } else if overrides[0].provider == provider {
        overrides[0].path@
    } else {
        override_of(overrides.skip(1), provider)
    }
}

/// No provider stands twice.
pub open spec fn distinct_overrides(overrides: Seq<BinaryOverride>) -> bool {
    forall|i: int, j: int|
        0 <= i < j < overrides.len() ==> (#[trigger] overrides[i]).provider != (
        #[trigger] overrides[j]).provider
}

fn find_override(overrides: &Vec<BinaryOverride>, provider: ProviderKind) -> (found: Option<usize>)
    ensures
        match found {
            Some(i) => i < overrides@.len() && overrides@[i as int].provider == provider
                && override_of(overrides@, provider) == overrides@[i as int].path@,
            None => override_of(overrides@, provider).len() == 0 && forall|k: int|
                0 <= k < overrides@.len() ==> (#[trigger] overrides@[k]).provider != provider,
        },
{
    let mut i: usize = 0;
    assert(overrides@.skip(0) =~= overrides@);
    while i < overrides.len()
        invariant
            i <= overrides@.len(),
            override_of(overrides@, provider) == override_of(
                overrides@.skip(i as int),
                provider,
            ),
            forall|k: int| 0 <= k < i ==> (#[trigger] overrides@[k]).provider != provider,
        decreases overrides@.len() - i,
    {
        assert(overrides@.skip(i as int)[0] == overrides@[i as int]);
        assert(overrides@.skip(i as int).skip(1) =~= overrides@.skip(i + 1));
        if overrides[i].provider == provider {
            return Some(i);
        }
        i += 1;
    }
    None
}

proof fn lemma_override_found(overrides: Seq<BinaryOverride>, i: int)
    requires
        distinct_overrides(overrides),
        0 <= i < overrides.len(),
    ensures
        override_of(overrides, overrides[i].provider) == overrides[i].path@,
    decreases overrides.len(),
{
    if i > 0 {
        let rest = overrides.skip(1);
        assert(overrides[0].provider != overrides[i].provider);
        assert(rest[i - 1] == overrides[i]);
        assert forall|a: int, b: int| 0 <= a < b < rest.len() implies (#[trigger] rest[a]).provider
            != (#[trigger] rest[b]).provider by {
            assert(rest[a] == overrides[a + 1] && rest[b] == overrides[b + 1]);
        }
        lemma_override_found(rest, i - 1);
    }
}

proof fn lemma_override_absent(overrides: Seq<BinaryOverride>, provider: ProviderKind)
    requires
        forall|k: int| 0 <= k < overrides.len() ==> (#[trigger] overrides[k]).provider != provider,
    ensures
        override_of(overrides, provider).len() == 0,
    decreases overrides.len(),
{
    if overrides.len() > 0 {
        assert(overrides[0].provider != provider);
        let rest = overrides.skip(1);
        assert forall|k: int| 0 <= k < rest.len() implies (#[trigger] rest[k]).provider
            != provider by {
            assert(rest[k] == overrides[k + 1]);
        }
        lemma_override_absent(rest, provider);
    }
}

proof fn lemma_override_same(
    a: Seq<BinaryOverride>,
    b: Seq<BinaryOverride>,
    provider: ProviderKind,
)
    requires
        distinct_overrides(a),
        distinct_overrides(b),
        forall|k: int|
            0 <= k < a.len() && (#[trigger] a[k]).provider == provider ==> b.contains(a[k]),
        forall|k: int|
            0 <= k < b.len() && (#[trigger] b[k]).provider == provider ==> a.contains(b[k]),
    ensures
        override_of(a, provider) == override_of(b, provider),
{
    if exists|k: int| 0 <= k < a.len() && (#[trigger] a[k]).provider == provider {
        let k = choose|k: int| 0 <= k < a.len() && (#[trigger] a[k]).provider == provider;
        let j = choose|j: int| 0 <= j < b.len() && b[j] == a[k];
        lemma_override_found(a, k);
        lemma_override_found(b, j);
    } else {
        lemma_override_absent(a, provider);
        assert forall|k: int| 0 <= k < b.len() implies (#[trigger] b[k]).provider != provider by {
            if b[k].provider == provider {
                assert(a.contains(b[k]));
                let j = choose|j: int| 0 <= j < a.len() && a[j] == b[k];
                assert(a[j].provider == provider);
            }
        }
        lemma_override_absent(b, provider);
        assert(override_of(a, provider) =~= override_of(b, provider));
    }
}

/// Take up the edited path of the provider whose settings are open: an empty
/// one means that the program is looked for. Whether that is a change.
pub fn apply_provider_path_override(
    overrides: &mut Vec<BinaryOverride>,
    expanded: Option<ProviderKind>,
    input: &str,
) -> (changed: Option<ProviderKind>)
    requires
        distinct_overrides(old(overrides)@),
    ensures
        distinct_overrides(final(overrides)@),
        match expanded {
            None => changed is None && final(overrides)@ == old(overrides)@,
            Some(provider) => {
                let wanted = text::trimmed(input@);
                &&& changed == (if wanted != override_of(old(overrides)@, provider) {
                    Some(provider)
                } else {
                    None
                })
                &&& forall|other: ProviderKind| #[trigger]
                    override_of(final(overrides)@, other) == (if other == provider {
                        wanted
                    } else {
                        override_of(old(overrides)@, other)
                    })
            },
        },
{
    let ghost before = overrides@;
    let provider = match expanded {
        Some(provider) => provider,
        None => {
            return None;
        },
    };
    let wanted = text::trim(input);
    match find_override(overrides, provider) {
        Some(i) => {
            if text::same(wanted.as_str(), overrides[i].path.as_str()) {
                return None;
            }
            if wanted.as_str().is_empty() {
                overrides.remove(i);
                proof {
                    let after = overrides@;
                    assert forall|other: ProviderKind| #[trigger]
                        override_of(after, other) == (if other == provider {
                            wanted@
                        } else {
                            override_of(before, other)
                        }) by {
                        if other == provider {
                            assert forall|k: int| 0 <= k < after.len() implies (
                            #[trigger] after[k]).provider != provider by {
                                if k < i {
                                    assert(after[k] == before[k]);
                                } else {
                                    assert(after[k] == before[k + 1]);
                                }
                            }
                            lemma_override_absent(after, provider);
                            assert(override_of(after, other) =~= wanted@);
                        } else {
                            assert forall|k: int|
                                0 <= k < after.len() && (#[trigger] after[k]).provider
                                    == other implies before.contains(after[k]) by {
                                if k < i {
                                    assert(after[k] == before[k]);
                                } else {
                                    assert(after[k] == before[k + 1]);
                                }
                            }
                            assert forall|k: int|
                                0 <= k < before.len() && (#[trigger] before[k]).provider
                                    == other implies after.contains(before[k]) by {
                                if k < i {
                                    assert(after[k] == before[k]);
                                } else {
                                    assert(after[k - 1] == before[k]);
                                }
                            }
                            lemma_override_same(after, before, other);
                        }
                    }
                }
            } else {
                let ghost path = wanted@;
                overrides[i].path = wanted;
                proof {
                    let after = overrides@;
                    assert forall|a: int, b: int| 0 <= a < b < after.len() implies (
                    #[trigger] after[a]).provider != (#[trigger] after[b]).provider by {
                        assert(before[a].provider != before[b].provider);
                    }
                    assert forall|other: ProviderKind| #[trigger]
                        override_of(after, other) == (if other == provider {
                            path
                        } else {
                            override_of(before, other)
                        }) by {
                        if other == provider {
                            lemma_override_found(after, i as int);
                        } else {
                            assert forall|k: int|
                                0 <= k < after.len() && (#[trigger] after[k]).provider
                                    == other implies before.contains(after[k]) by {
                                assert(after[k] == before[k]);
                            }
                            assert forall|k: int|
                                0 <= k < before.len() && (#[trigger] before[k]).provider
                                    == other implies after.contains(before[k]) by {
                                assert(after[k] == before[k]);
                            }
                            lemma_override_same(after, before, other);
                        }
                    }
                }
            }
        },
        None => {
            if wanted.as_str().is_empty() {
                assert(wanted@ =~= override_of(before, provider));
                return None;
            }
            let ghost path = wanted@;
            overrides.push(BinaryOverride { provider, path: wanted });
            proof {
                let after = overrides@;
                assert forall|a: int, b: int| 0 <= a < b < after.len() implies (
                #[trigger] after[a]).provider != (#[trigger] after[b]).provider by {
                    assert(after[a] == before[a]);
                    if b < before.len() {
                        assert(after[b] == before[b]);
                    }
                }
                assert forall|other: ProviderKind| #[trigger]
                    override_of(after, other) == (if other == provider {
                        path
                    } else {
                        override_of(before, other)
                    }) by {
                    if other == provider {
                        lemma_override_found(after, before.len() as int);
                    } else {
                        assert forall|k: int|
                            0 <= k < after.len() && (#[trigger] after[k]).provider
                                == other implies before.contains(after[k]) by {
                            assert(after[k] == before[k]);
                        }
                        assert forall|k: int|
                            0 <= k < before.len() && (#[trigger] before[k]).provider
                                == other implies after.contains(before[k]) by {
                            assert(after[k] == before[k]);
                        }
                        lemma_override_same(after, before, other);
                    }
                }
            }
        },
    }
    Some(provider)
}

/// Open a provider's settings, or close them where they are open. What the
/// field for its program then holds, where it is shown.
pub fn toggle_provider_expanded(
    expanded: Option<ProviderKind>,
    overrides: &Vec<BinaryOverride>,
    provider: ProviderKind,
) -> (next: (Option<ProviderKind>, Option<String>))
    ensures
        next.0 == (if expanded == Some(provider) {
            None
        } else {
            Some(provider)
        }),
        text::text_view(next.1) == (if expanded == Some(provider) {
            None
        } else {
            Some(override_of(overrides@, provider))
        }),
{
    if expanded == Some(provider) {
        return (None, None);
    }
    let input = match find_override(overrides, provider) {
        Some(i) => overrides[i].path.clone(),
        None => {
            let none = String::new();
            assert(none@ =~= override_of(overrides@, provider));
            none
        },
    };
    (Some(provider), Some(input))
}

/// The providers without one.
pub open spec fn other_kinds(kinds: Seq<ProviderKind>, provider: ProviderKind) -> Seq<ProviderKind>
    decreases kinds.len(),
{
    if kinds.len() == 0 {
        kinds
    } else if kinds.last() == provider {
        other_kinds(kinds.drop_last(), provider)
    } else {
        other_kinds(kinds.drop_last(), provider).push(kinds.last())
    }
}

/// The providers that are switched off after one has been switched.
pub open spec fn switched(
    disabled: Seq<ProviderKind>,
    provider: ProviderKind,
    enabled: bool,
) -> Seq<ProviderKind> {
    if enabled {
        other_kinds(disabled, provider)
    } else if disabled.contains(provider) {
        disabled
    } else {
        disabled.push(provider)
    }
}

/// The first provider that is not switched off.
pub open spec fn first_enabled(all: Seq<ProviderKind>, disabled: Seq<ProviderKind>) -> Option<
    ProviderKind,
>
    decreases all.len(),
{
    if all.len() == 0 {
        None
    } else if !disabled.contains(all[0]) {
        Some(all[0])
    } else {
        first_enabled(all.skip(1), disabled)
    }
}

/// A session that has not been started, moved to another provider: what it
/// remembered belongs to the old one.
pub open spec fn moved_draft(session: SessionView, provider: ProviderKind, fallback: ProviderKind) -> SessionView {
    if session.provider == provider && !session.started {
        SessionView {
            provider: fallback,
            model: None,
            reasoning_effort: None,
            service_tier: None,
            context_window: None,
            ..session
        }
    } else {
        session
    }
}

fn has_kind(kinds: &Vec<ProviderKind>, provider: ProviderKind) -> (found: bool)
    ensures
        found == kinds@.contains(provider),
{
    let mut i: usize = 0;
    while i < kinds.len()
        invariant
            i <= kinds@.len(),
            forall|k: int| 0 <= k < i ==> #[trigger] kinds@[k] != provider,
        decreases kinds@.len() - i,
    {
        if kinds[i] == provider {
            assert(kinds@[i as int] == provider);
            return true;
        }
        i += 1;
    }
    false
}

fn retain_other_kinds(kinds: &mut Vec<ProviderKind>, provider: ProviderKind)
    ensures
        final(kinds)@ == other_kinds(old(kinds)@, provider),
{
    let ghost before = kinds@;
    let mut kept: Vec<ProviderKind> = Vec::new();
    let mut i: usize = 0;
    assert(before.take(0) =~= Seq::<ProviderKind>::empty());
    while i < kinds.len()
        invariant
            i <= kinds@.len(),
            kinds@ == before,
            kept@ == other_kinds(before.take(i as int), provider),
        decreases kinds@.len() - i,
    {
        assert(before.take(i + 1).drop_last() =~= before.take(i as int));
        assert(before.take(i + 1).last() == before[i as int]);
        let kind = kinds[i];
        if kind != provider {
            kept.push(kind);
        }
        i += 1;
    }
    assert(before.take(i as int) =~= before);
    *kinds = kept;
}

fn find_enabled(all: &Vec<ProviderKind>, disabled: &Vec<ProviderKind>) -> (found: Option<
    ProviderKind,
>)
    ensures
        found == first_enabled(all@, disabled@),
{
    let mut i: usize = 0;
    assert(all@.skip(0) =~= all@);
    while i < all.len()
        invariant
            i <= all@.len(),
            first_enabled(all@, disabled@) == first_enabled(all@.skip(i as int), disabled@),
        decreases all@.len() - i,
    {
        assert(all@.skip(i as int)[0] == all@[i as int]);
        assert(all@.skip(i as int).skip(1) =~= all@.skip(i + 1));
        if !has_kind(disabled, all[i]) {
            return Some(all[i]);
        }
        i += 1;
    }
    None
}

/// Switch a provider on or off. One that is switched off offers nothing to new
/// tasks: what a new task starts with, and tasks that have not been started,
/// move to the first provider of `all` that is on, if there is one. Tasks
/// that have been started keep it.
pub fn set_provider_enabled(
    disabled: &mut Vec<ProviderKind>,
    remembered: &mut RememberedSettings,
    sessions: &mut Vec<AgentSession>,
    all: &Vec<ProviderKind>,
    provider: ProviderKind,
    enabled: bool,
)
    ensures
        final(disabled)@ == switched(old(disabled)@, provider, enabled),
        ({
            let before = session::sessions_view(old(sessions)@);
            let after = session::sessions_view(final(sessions)@);
            let fallback = if enabled {
                None
            } else {
                first_enabled(all@, switched(old(disabled)@, provider, enabled))
            };
            match fallback {
                None => after == before && final(remembered)@ == old(remembered)@,
                Some(fallback) => {
                    &&& after == before.map_values(
                        |session: SessionView| moved_draft(session, provider, fallback),
                    )
                    &&& final(remembered)@ == (if old(remembered).provider == provider {
                        RememberedView {
                            provider: fallback,
                            runtime_mode: old(remembered).runtime_mode,
                            model: None,
                            reasoning_effort: None,
                            service_tier: None,
                            context_window: None,
                        }
                    } else {
                        old(remembered)@
                    })
                },
            }
        }),
{
    let ghost before = session::sessions_view(sessions@);
    if enabled {
        retain_other_kinds(disabled, provider);
        return;
    }
    if !has_kind(disabled, provider) {
        disabled.push(provider);
    }
    let fallback = match find_enabled(all, disabled) {
        Some(fallback) => fallback,
        None => {
            return;
        },
    };
    if remembered.provider == provider {
        remembered.provider = fallback;
        remembered.model = None;
        remembered.reasoning_effort = None;
        remembered.service_tier = None;
        remembered.context_window = None;
    }
    let mut i: usize = 0;
    while i < sessions.len()
        invariant
            i <= sessions@.len(),
            sessions@.len() == before.len(),
            forall|k: int|
                0 <= k < sessions@.len() ==> (#[trigger] sessions@[k])@ == (if k < i {
                    moved_draft(before[k], provider, fallback)
                } else {
                    before[k]
                }),
        decreases sessions@.len() - i,
    {
        assert(sessions@[i as int]@ == before[i as int]);
        if sessions[i].provider == provider && !sessions[i].started {
            sessions[i].provider = fallback;
            sessions[i].model = None;
            sessions[i].reasoning_effort = None;
            sessions[i].service_tier = None;
            sessions[i].context_window = None;
        }
        i += 1;
    }
    assert(session::sessions_view(sessions@) =~= before.map_values(
        |session: SessionView| moved_draft(session, provider, fallback),
    ));
}

/// Switching a provider off leaves every started task with it, and no new
/// task, as long as another provider is on.
pub proof fn switching_off_spares_started_tasks(
    sessions: Seq<SessionView>,
    provider: ProviderKind,
    fallback: ProviderKind,
    i: int,
)
    requires
        0 <= i < sessions.len(),
        fallback != provider,
    ensures
        ({
            let after = sessions.map_values(
                |session: SessionView| moved_draft(session, provider, fallback),
            )[i];
            &&& sessions[i].started ==> after == sessions[i]
            &&& !sessions[i].started ==> after.provider != provider
        }),
{
}

// ── Control of other applications ──────────────────────────────────────────

/// The consents that are kept after one has been taken back.
pub open spec fn remaining_grants(grants: Seq<AppGrant>, key: Seq<char>) -> Seq<AppGrant>
    decreases grants.len(),
{
    if grants.len() == 0 {
        grants
    } else if grants[0].key@ == key {
        remaining_grants(grants.skip(1), key)
    } else {
        seq![grants[0]] + remaining_grants(grants.skip(1), key)
    }
}

/// Take the consent for an application back.
pub fn revoke_computer_app(grants: &mut Vec<AppGrant>, key: &str)
    ensures
        final(grants)@ == remaining_grants(old(grants)@, key@),
{
    let ghost before = grants@;
    let mut i: usize = 0;
    let ghost mut passed: int = 0;
    assert(before.skip(0) =~= before);
    assert(grants@.take(0) + remaining_grants(before, key@) =~= remaining_grants(before, key@));
    while i < grants.len()
        invariant
            i <= grants@.len(),
            0 <= passed <= before.len(),
            grants@.skip(i as int) == before.skip(passed),
            grants@.take(i as int) + remaining_grants(before.skip(passed), key@)
                == remaining_grants(before, key@),
        decreases grants@.len() - i,
    {
        let revoked = text::same(grants[i].key.as_str(), key);
        let ghost rest = before.skip(passed);
        let ghost here = grants@;
        assert(rest[0] == here.skip(i as int)[0]);
        assert(rest[0] == here[i as int]);
        assert(rest.len() == here.len() - i);
        assert(rest.skip(1) =~= before.skip(passed + 1));
        if revoked {
            grants.remove(i);
            assert(grants@.skip(i as int) =~= here.skip(i as int).skip(1));
            assert(grants@.take(i as int) =~= here.take(i as int));
        } else {
            assert(here.take(i as int) + (seq![rest[0]] + remaining_grants(rest.skip(1), key@))
                =~= here.take(i + 1) + remaining_grants(rest.skip(1), key@));
            assert(here.skip(i + 1) =~= here.skip(i as int).skip(1));
            i += 1;
        }
        proof {
            passed = passed + 1;
        }
    }
    assert(grants@.take(i as int) =~= grants@);
    assert(grants@.skip(i as int).len() == 0);
    assert(before.skip(passed).len() == 0);
    assert(grants@ + remaining_grants(before.skip(passed), key@) =~= grants@);
}

proof fn lemma_remaining(grants: Seq<AppGrant>, key: Seq<char>)
    ensures
        !controls::has_grant(remaining_grants(grants, key), key),
    decreases grants.len(),
{
    if grants.len() > 0 {
        let rest = remaining_grants(grants.skip(1), key);
        lemma_remaining(grants.skip(1), key);
        let kept = remaining_grants(grants, key);
        if controls::has_grant(kept, key) && grants[0].key@ != key {
            let i = choose|i: int| 0 <= i < kept.len() && (#[trigger] kept[i]).key@ == key;
            assert(kept[i] == rest[i - 1]);
            assert(controls::has_grant(rest, key));
        }
    }
}

/// Consent that has been taken back is not found any longer.
pub proof fn revoked_consent_is_gone(grants: Seq<AppGrant>, key: Seq<char>)
    ensures
        !controls::has_grant(remaining_grants(grants, key), key),
{
    lemma_remaining(grants, key);
}

/// A row for an application that every agent may control.
pub struct AllowedAppRow {
    pub revoke_id: String,
    pub name: String,
    pub bundle_id: String,
    /// A line stands below every row but the last.
    pub has_line: bool,
}

/// Whether a permission of the system has been granted, in words.
pub struct PermissionRow {
    pub granted: bool,
    pub label: String,
}

/// What the page for the control of other applications shows.
pub struct ComputerUsePanel {
    pub enabled: bool,
    pub helper_access: String,
    pub screen_recording: PermissionRow,
    pub accessibility: PermissionRow,
    pub recheck_label: String,
    /// What stands in place of an empty list.
    pub no_apps: Option<String>,
    pub apps: Vec<AllowedAppRow>,
}

/// Whether a row shows whether a permission has been granted.
pub open spec fn shows_permission(
    entries: Seq<(Seq<char>, Seq<char>)>,
    row: PermissionRow,
    granted: bool,
) -> bool {
    row.granted == granted && row.label@ == i18n::plain(
        entries,
        if granted {
            "computer_use.access_granted"@
        } else {
            "computer_use.grant_access"@
        },
    )
}

fn permission_status_row(catalog: &Catalog, granted: bool) -> (row: PermissionRow)
    ensures
        shows_permission(catalog@, row, granted),
{
    if granted {
        PermissionRow { granted, label: catalog.text("computer_use.access_granted") }
    } else {
        PermissionRow { granted, label: catalog.text("computer_use.grant_access") }
    }
}

/// Whether a row shows the grant at a place.
pub open spec fn shows_grant(row: AllowedAppRow, grants: Seq<AppGrant>, i: int) -> bool {
    &&& row.revoke_id@ == "revoke-computer-app-"@ + grants[i].key@
    &&& row.name@ == grants[i].app_name@
    &&& row.bundle_id@ == grants[i].bundle_id@
    &&& row.has_line == (i + 1 != grants.len())
}

/// What the page for the control of other applications shows: whether it is
/// on, what the system permits its helper, and which applications every agent
/// may control.
pub fn computer_use_settings(
    catalog: &Catalog,
    enabled: bool,
    screen_recording: bool,
    accessibility: bool,
    request_pending: bool,
    helper: &str,
    grants: &Vec<AppGrant>,
) -> (panel: ComputerUsePanel)
    ensures
        panel.enabled == enabled,
        panel.helper_access@ == i18n::localized(
            catalog@,
            "computer_use.helper_access"@,
            seq![i18n::argument("helper"@, helper@)],
        ),
        shows_permission(catalog@, panel.screen_recording, screen_recording),
        shows_permission(catalog@, panel.accessibility, accessibility),
        panel.recheck_label@ == i18n::plain(
            catalog@,
            if request_pending {
                "common.checking"@
            } else {
                "common.recheck"@
            },
        ),
        text::text_view(panel.no_apps) == (if grants@.len() == 0 {
            Some(i18n::plain(catalog@, "computer_use.no_always_allowed_apps"@))
        } else {
            None
        }),
        panel.apps@.len() == grants@.len(),
        forall|i: int|
            0 <= i < grants@.len() ==> shows_grant(#[trigger] panel.apps@[i], grants@, i),
{
    let mut apps: Vec<AllowedAppRow> = Vec::new();
    let count: usize = grants.len();
    let mut i: usize = 0;
    while i < count
        invariant
            i <= count,
            count == grants@.len(),
            apps@.len() == i,
            forall|k: int| 0 <= k < i ==> shows_grant(#[trigger] apps@[k], grants@, k),
        decreases count - i,
    {
        apps.push(
            AllowedAppRow {
                revoke_id: text::prefixed("revoke-computer-app-", grants[i].key.as_str()),
                name: grants[i].app_name.clone(),
                bundle_id: grants[i].bundle_id.clone(),
                has_line: i + 1 != count,
            },
        );
        i += 1;
    }
    ComputerUsePanel {
        enabled,
        helper_access: catalog.text_with("computer_use.helper_access", "helper", helper),
        screen_recording: permission_status_row(catalog, screen_recording),
        accessibility: permission_status_row(catalog, accessibility),
        recheck_label: if request_pending {
            catalog.text("common.checking")
        } else {
            catalog.text("common.recheck")
        },
        no_apps: if count == 0 {
            Some(catalog.text("computer_use.no_always_allowed_apps"))
        } else {
            None
        },
        apps,
    }
}

/// The request for the system's permissions: none while an answer is still
/// awaited, else whether the user is prompted for them or they are only looked
/// up.
pub fn request_computer_permissions(pending: &mut bool, prompt: bool) -> (request: Option<bool>)
    ensures
        request == (if *old(pending) {
            None
        } else {
            Some(prompt)
        }),
        *final(pending),
{
    if *pending {
        return None;
    }
    *pending = true;
    Some(prompt)
}

/// Switch the control of other applications on or off. Switching it on prompts
/// for the system's permissions, unless an answer is still awaited; the
/// request, as `request_computer_permissions` makes it.
pub fn set_computer_use_enabled(setting: &mut bool, pending: &mut bool, enabled: bool) -> (request:
    Option<bool>)
    ensures
        *final(setting) == enabled,
        request == (if enabled && !*old(pending) {
            Some(true)
        } else {
            None
        }),
        *final(pending) == (enabled || *old(pending)),
{
    *setting = enabled;
    if enabled {
        request_computer_permissions(pending, true)
    } else {
        None
    }
}

/// What the daemon answers to a request for the system's permissions.
pub enum PermissionReply<T> {
    Permissions(T),
    /// An answer to something else.
    Other,
    Failed { error: String },
}

/// The permissions that the daemon reports, or what went wrong.
pub fn reported_permissions<T>(reply: PermissionReply<T>) -> (permissions: Result<T, String>)
    ensures
        match reply {
            PermissionReply::Permissions(reported) => permissions == Ok::<T, String>(reported),
            PermissionReply::Other => permissions matches Err(error) && error@
                == "the daemon returned an invalid permission response"@,
            PermissionReply::Failed { error } => permissions == Err::<T, String>(error),
        },
{
    match reply {
        PermissionReply::Permissions(reported) => Ok(reported),
        PermissionReply::Other => Err(
            text::owned("the daemon returned an invalid permission response"),
        ),
        PermissionReply::Failed { error } => Err(error),
    }
}

} // verus!
