//! The page for what is remembered about a project: facts that can be added,
//! and removed by a second press.
use crate::i18n;
use crate::i18n::Catalog;
use crate::paths;
use crate::session::AgentSession;
use crate::sidebar::Project;
use crate::streaming;
use crate::text;
use vstd::prelude::*;

verus! {

/// A remembered fact.
pub struct Fact {
    pub title: String,
    pub body: String,
}

/// What the page knows.
pub struct MemoryState {
    /// The facts, the oldest first, once they have been read.
    pub facts: Option<Vec<Fact>>,
    /// The project they belong to.
    pub project: Option<String>,
    /// The project whose facts are being read.
    pub reading: Option<String>,
    /// Whether they are being read.
    pub pending: bool,
    /// Which reading is the current one.
    pub generation: u64,
    /// The fact whose removal waits for a second press.
    pub delete_arming: Option<String>,
}

#[verifier::ext_equal]
pub struct MemoryView {
    pub facts: Option<Seq<Fact>>,
    pub project: Option<Seq<char>>,
    pub reading: Option<Seq<char>>,
    pub pending: bool,
    pub generation: u64,
    pub delete_arming: Option<Seq<char>>,
}

/// The view of facts that may not have been read.
pub open spec fn facts_view(facts: Option<Vec<Fact>>) -> Option<Seq<Fact>> {
    match facts {
        Some(facts) => Some(facts@),
        None => None,
    }
}

impl View for MemoryState {
    type V = MemoryView;

    open spec fn view(&self) -> MemoryView {
        MemoryView {
            facts: facts_view(self.facts),
            project: text::text_view(self.project),
            reading: text::text_view(self.reading),
            pending: self.pending,
            generation: self.generation,
            delete_arming: text::text_view(self.delete_arming),
        }
    }
}

/// How a reading has ended.
#[derive(Clone, Copy, Debug, PartialEq, Eq, Structural)]
pub enum LoadEnd {
    /// A later reading has begun: nothing is taken up.
    Overtaken,
    /// The facts are those of the selected project and are shown.
    Taken,
    /// Another project is selected by now: the facts are dropped. Its own are
    /// read next, under this generation, unless they are there already.
    Superseded { next: Option<u64> },
}

impl MemoryView {
    /// The page after it has been asked for a project's facts, and whether
    /// they have to be read. `known` says whether the facts at hand are that
    /// project's.
    pub open spec fn ensured(
        self,
        project: Option<Seq<char>>,
        known: bool,
        force: bool,
    ) -> (MemoryView, bool) {
        match project {
            None => (
                MemoryView {
                    facts: None,
                    project: None,
                    reading: None,
                    pending: false,
                    delete_arming: None,
                    ..self
                },
                false,
            ),
            Some(_) => if self.pending || (!force && known) {
                (self, false)
            } else {
                (
                    MemoryView {
                        pending: true,
                        reading: project,
                        generation: (self.generation + 1) as u64,
                        delete_arming: if known {
                            self.delete_arming
                        } else {
                            None
                        },
                        ..self
                    },
                    true,
                )
            },
        }
    }

    /// The page after a reading has ended, and how it has. `same` says whether
    /// the project it was for is the selected one, and `known` whether the
    /// facts at hand are the selected one's.
    pub open spec fn loaded(
        self,
        generation: u64,
        selected: Option<Seq<char>>,
        same: bool,
        known: bool,
        facts: Seq<Fact>,
    ) -> (MemoryView, LoadEnd) {
        if self.generation != generation {
            (self, LoadEnd::Overtaken)
        } else if same {
            (
                MemoryView {
                    pending: false,
                    reading: None,
                    project: self.reading,
                    facts: Some(facts),
                    ..self
                },
                LoadEnd::Taken,
            )
        } else {
            let (after, read) = (MemoryView { pending: false, reading: None, ..self }).ensured(
                selected,
                known,
                false,
            );
            (
                after,
                LoadEnd::Superseded {
                    next: if read {
                        Some(after.generation)
                    } else {
                        None
                    },
                },
            )
        }
    }
}

/// Whether two projects, of which there may be none, may be found to be one,
/// or not to be.
pub open spec fn may_be_one(a: Option<Seq<char>>, b: Option<Seq<char>>, same: bool) -> bool {
    match (a, b) {
        (Some(a), Some(b)) => paths::may_be_same(a, b, same),
        _ => !same,
    }
}

fn same_project(a: &Option<String>, b: &Option<String>) -> (same: bool)
    ensures
        may_be_one(text::text_view(*a), text::text_view(*b), same),
{
    match (a, b) {
        (Some(a), Some(b)) => paths::same_path(a.as_str(), b.as_str()),
        _ => false,
    }
}

/// Ask for a project's facts, where it is decided whether the facts at hand
/// are that project's. The generation of the reading to start, if any.
pub fn ensure_memory_of(
    state: &mut MemoryState,
    project: &Option<String>,
    known: bool,
    force: bool,
) -> (load: Option<u64>)
    requires
        old(state).generation < u64::MAX,
    ensures
        final(state)@ == old(state)@.ensured(text::text_view(*project), known, force).0,
        load == (if old(state)@.ensured(text::text_view(*project), known, force).1 {
            Some(final(state).generation)
        } else {
            None
        }),
{
    if project.is_none() {
        state.facts = None;
        state.project = None;
        state.reading = None;
        state.pending = false;
        state.delete_arming = None;
        return None;
    }
    if state.pending || (!force && known) {
        return None;
    }
    if !known {
        state.delete_arming = None;
    }
    state.pending = true;
    state.reading = text::copy_text(project);
    state.generation = state.generation + 1;
    Some(state.generation)
}

/// Ask for a project's facts. They are read unless a reading is going on or
/// they are there already; without a project there are none. The generation
/// of the reading to start, if any.
pub fn ensure_memory(state: &mut MemoryState, project: &Option<String>, force: bool) -> (load: Option<
    u64,
>)
    requires
        old(state).generation < u64::MAX,
    ensures
        exists|known: bool|
            may_be_one(old(state)@.project, text::text_view(*project), known) && (
            final(state)@,
            load,
        ) == ({
                let (after, read) = #[trigger] old(state)@.ensured(
                    text::text_view(*project),
                    known,
                    force,
                );
                (
                    after,
                    if read {
                        Some(after.generation)
                    } else {
                        None
                    },
                )
            }),
{
    let known = same_project(&state.project, project);
    ensure_memory_of(state, project, known, force)
}

/// Take up the facts that have been read, where it is decided whether the
/// project they were read for is the selected one, and whether the facts at
/// hand are.
pub fn finish_memory_load_of(
    state: &mut MemoryState,
    generation: u64,
    selected: &Option<String>,
    same: bool,
    known: bool,
    facts: Vec<Fact>,
) -> (end: LoadEnd)
    requires
        old(state).generation < u64::MAX,
    ensures
        (final(state)@, end) == old(state)@.loaded(
            generation,
            text::text_view(*selected),
            same,
            known,
            facts@,
        ),
{
    if state.generation != generation {
        return LoadEnd::Overtaken;
    }
    state.pending = false;
    let reading = state.reading.take();
    if same {
        state.project = reading;
        state.facts = Some(facts);
        return LoadEnd::Taken;
    }
    let next = ensure_memory_of(state, selected, known, false);
    LoadEnd::Superseded { next }
}

/// Take up the facts that have been read, unless a later reading has begun.
/// Facts that were read for another project than the one that is selected by
/// now are dropped, and the selected one's are read.
pub fn finish_memory_load(
    state: &mut MemoryState,
    generation: u64,
    selected: &Option<String>,
    facts: Vec<Fact>,
) -> (end: LoadEnd)
    requires
        old(state).generation < u64::MAX,
    ensures
        exists|same: bool, known: bool|
            may_be_one(old(state)@.reading, text::text_view(*selected), same) && may_be_one(
                old(state)@.project,
                text::text_view(*selected),
                known,
            ) && (final(state)@, end) == #[trigger] old(state)@.loaded(
                generation,
                text::text_view(*selected),
                same,
                known,
                facts@,
            ),
{
    let same = same_project(&state.reading, selected);
    let known = same_project(&state.project, selected);
    finish_memory_load_of(state, generation, selected, same, known, facts)
}

/// A reading that has been overtaken changes nothing, and neither does one
/// whose project is not selected any more: whatever it read is dropped, so
/// that no facts are ever kept as another project's.
pub proof fn overtaken_readings_are_dropped(
    state: MemoryView,
    generation: u64,
    selected: Option<Seq<char>>,
    same: bool,
    known: bool,
    facts: Seq<Fact>,
    other: Seq<Fact>,
)
    requires
        state.generation < u64::MAX,
        may_be_one(state.reading, selected, same),
        may_be_one(state.project, selected, known),
    ensures
        ({
            let (after, end) = state.loaded(generation, selected, same, known, facts);
            &&& state.generation != generation ==> after == state
            &&& !same ==> after == state.loaded(generation, selected, same, known, other).0
            &&& !same ==> after.facts == state.facts || after.facts is None
            &&& end is Taken ==> {
                &&& after.project == state.reading
                &&& after.facts == Some(facts)
                &&& selected is Some && state.reading is Some
                &&& paths::plain(selected->0) && paths::plain(state.reading->0)
                    ==> paths::same_parts(state.reading->0, selected->0)
            }
            &&& end is Overtaken <==> state.generation != generation
        }),
{
}

/// Where another project has been selected while a project's facts were being
/// read, the end of that reading starts the one of the project selected now.
pub proof fn a_changed_selection_is_read_next(
    state: MemoryView,
    first: Seq<char>,
    second: Seq<char>,
    facts: Seq<Fact>,
)
    requires
        !state.pending,
        state.generation < u64::MAX - 1,
    ensures
        ({
            let reading = state.ensured(Some(first), false, true).0;
            let waiting = reading.ensured(Some(second), false, false).0;
            let (after, end) = waiting.loaded(
                reading.generation,
                Some(second),
                false,
                false,
                facts,
            );
            &&& reading.reading == Some(first)
            &&& waiting == reading
            &&& after.reading == Some(second)
            &&& after.facts == state.facts
            &&& after.project == state.project
            &&& end == (LoadEnd::Superseded { next: Some(after.generation) })
        }),
{
}

/// What the command to remember a text does.
pub enum RememberStep {
    /// No project is selected: the user is told.
    NoProject,
    /// Nothing was typed: the user is told how it is used.
    Usage,
    /// The text is kept as a fact.
    Remember { fact: String },
}

/// What the command to remember a text does.
pub fn add_memory_fact(has_project: bool, input: &str) -> (step: RememberStep)
    ensures
        match step {
            RememberStep::NoProject => !has_project,
            RememberStep::Usage => has_project && text::trimmed(input@).len() == 0,
            RememberStep::Remember { fact } => has_project && text::trimmed(input@).len() > 0
                && fact@ == text::trimmed(input@),
        },
{
    if !has_project {
        return RememberStep::NoProject;
    }
    let trimmed = text::trim(input);
    if trimmed.as_str().is_empty() {
        return RememberStep::Usage;
    }
    RememberStep::Remember { fact: trimmed }
}

/// What a press on a fact's removal does.
#[derive(Clone, Copy, Debug, PartialEq, Eq, Structural)]
pub enum ForgetStep {
    /// No project is selected: the user is told.
    NoProject,
    /// The press waits for a second one.
    Armed,
    /// The fact is removed.
    Forget,
}

/// A press on a fact's removal: the second one for the same fact removes it.
pub fn delete_memory_fact(state: &mut MemoryState, has_project: bool, title: &str) -> (step:
    ForgetStep)
    ensures
        ({
            let armed = old(state)@.delete_arming == Some(title@);
            &&& step == if !has_project {
                ForgetStep::NoProject
            } else if armed {
                ForgetStep::Forget
            } else {
                ForgetStep::Armed
            }
            &&& final(state)@ == (MemoryView {
                delete_arming: if !has_project {
                    old(state)@.delete_arming
                } else if armed {
                    None
                } else {
                    Some(title@)
                },
                ..old(state)@
            })
        }),
{
    if !has_project {
        return ForgetStep::NoProject;
    }
    let armed = match &state.delete_arming {
        Some(arming) => text::same(arming.as_str(), title),
        None => false,
    };
    if !armed {
        state.delete_arming = Some(text::owned(title));
        return ForgetStep::Armed;
    }
    state.delete_arming = None;
    ForgetStep::Forget
}

/// A row for a fact.
pub struct FactRow {
    pub delete_id: String,
    pub title: String,
    pub body: String,
    /// Whether the removal waits for a second press.
    pub armed: bool,
    pub delete_label: String,
}

/// Whether a row shows a fact.
pub open spec fn shows_fact(
    entries: Seq<(Seq<char>, Seq<char>)>,
    row: FactRow,
    fact: Fact,
    arming: Option<Seq<char>>,
) -> bool {
    &&& row.delete_id@ == "memory-delete-"@ + fact.title@
    &&& row.title@ == fact.title@
    &&& row.body@ == text::trimmed(fact.body@)
    &&& row.armed == (arming == Some(fact.title@))
    &&& row.delete_label@ == i18n::plain(
        entries,
        if row.armed {
            "memory.confirm_delete"@
        } else {
            "memory.delete"@
        },
    )
}

/// What the page shows.
pub enum MemoryPage {
    /// No project is selected that could have facts.
    NoProject,
    /// The facts have not been read; whether they are being read.
    Unread { loading: bool },
    /// Nothing is remembered yet.
    Empty,
    /// The facts, the newest first.
    Facts { rows: Vec<FactRow> },
}

/// Whether this is what the page shows: the facts at hand where they are the
/// selected project's.
pub open spec fn page_shows(
    entries: Seq<(Seq<char>, Seq<char>)>,
    state: MemoryView,
    has_project: bool,
    known: bool,
    page: MemoryPage,
) -> bool {
    match page {
        MemoryPage::NoProject => !has_project,
        MemoryPage::Unread { loading } => has_project && (!known || state.facts is None) && loading
            == state.pending,
        MemoryPage::Empty => has_project && known && (state.facts matches Some(facts)
            && facts.len() == 0),
        MemoryPage::Facts { rows } => {
            &&& has_project && known
            &&& state.facts matches Some(facts)
            &&& facts.len() > 0
            &&& rows@.len() == facts.len()
            &&& forall|i: int|
                0 <= i < rows@.len() ==> shows_fact(
                    entries,
                    #[trigger] rows@[i],
                    facts[facts.len() - 1 - i],
                    state.delete_arming,
                )
        },
    }
}

fn fact_row(catalog: &Catalog, fact: &Fact, arming: &Option<String>) -> (row: FactRow)
    ensures
        shows_fact(catalog@, row, *fact, text::text_view(*arming)),
{
    let armed = match arming {
        Some(arming) => text::same(arming.as_str(), fact.title.as_str()),
        None => false,
    };
    FactRow {
        delete_id: text::prefixed("memory-delete-", fact.title.as_str()),
        title: fact.title.clone(),
        body: text::trim(fact.body.as_str()),
        armed,
        delete_label: if armed {
            catalog.text("memory.confirm_delete")
        } else {
            catalog.text("memory.delete")
        },
    }
}

/// What the page shows: `has_project` says whether a project is selected that
/// can have facts, and `known` whether the facts at hand are its own. The file
/// lists the oldest fact first, the page the newest.
pub fn memory_page_of(
    catalog: &Catalog,
    state: &MemoryState,
    has_project: bool,
    known: bool,
) -> (page: MemoryPage)
    ensures
        page_shows(catalog@, state@, has_project, known, page),
{
    if !has_project {
        return MemoryPage::NoProject;
    }
    if !known {
        return MemoryPage::Unread { loading: state.pending };
    }
    match &state.facts {
        None => MemoryPage::Unread { loading: state.pending },
        Some(facts) => {
            if facts.is_empty() {
                return MemoryPage::Empty;
            }
            let count: usize = facts.len();
            let mut rows: Vec<FactRow> = Vec::new();
            let mut i: usize = 0;
            while i < count
                invariant
                    i <= count,
                    count == facts@.len(),
                    rows@.len() == i,
                    forall|k: int|
                        0 <= k < i ==> shows_fact(
                            catalog@,
                            #[trigger] rows@[k],
                            facts@[facts@.len() - 1 - k],
                            state@.delete_arming,
                        ),
                decreases count - i,
            {
                rows.push(fact_row(catalog, &facts[count - 1 - i], &state.delete_arming));
                i += 1;
            }
            MemoryPage::Facts { rows }
        },
    }
}

/// What the page shows for the selected project: its own facts and no other's.
pub fn memory_page(catalog: &Catalog, state: &MemoryState, selected: &Option<String>) -> (page:
    MemoryPage)
    ensures
        exists|known: bool|
            may_be_one(state@.project, text::text_view(*selected), known)
                && #[trigger] page_shows(catalog@, state@, selected is Some, known, page),
{
    let known = same_project(&state.project, selected);
    memory_page_of(catalog, state, selected.is_some(), known)
}

// ── Remembering a turn ─────────────────────────────────────────────────────

/// What a provider is asked to remember of a turn.
pub struct Extraction {
    /// The project that the facts belong to.
    pub project: String,
    /// What was said.
    pub excerpt: String,
    /// The program that is asked.
    pub binary: String,
}

#[verifier::ext_equal]
pub struct ExtractionView {
    pub project: Seq<char>,
    pub excerpt: Seq<char>,
    pub binary: Seq<char>,
}

/// The view of what may be asked.
pub open spec fn extraction_view(extraction: Option<Extraction>) -> Option<ExtractionView> {
    match extraction {
        Some(extraction) => Some(
            ExtractionView {
                project: extraction.project@,
                excerpt: extraction.excerpt@,
                binary: extraction.binary@,
            },
        ),
        None => None,
    }
}

/// What a provider is asked to remember of the session's last turn. Nothing is
/// asked where the session belongs to no project, where nothing was said, or
/// where the provider's program was not found.
pub fn memory_extraction(
    session: &AgentSession,
    project: Option<&Project>,
    projectless: bool,
    binary: Option<String>,
    limit: usize,
) -> (extraction: Option<Extraction>)
    ensures
        extraction_view(extraction) == match (
            project,
            streaming::excerpt_of(session@, limit as nat),
            text::text_view(binary),
        ) {
            (Some(project), Some(excerpt), Some(binary)) => if projectless {
                None
            } else {
                Some(ExtractionView { project: project.path@, excerpt, binary })
            },
            _ => None,
        },
{
    if projectless {
        return None;
    }
    match (project, streaming::memory_excerpt(session, limit), binary) {
        (Some(project), Some(excerpt), Some(binary)) => Some(
            Extraction { project: project.path.clone(), excerpt, binary },
        ),
        _ => None,
    }
}

} // verus!
