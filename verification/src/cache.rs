//! What a frame keeps of the transcript: its rows, the footers of its
//! responses and its navigation entries, each made again only when the
//! transcript's fingerprint has moved.
use crate::layout::RowRange;
use crate::model::{Id, MessageRole};
use crate::navigation;
use crate::navigation::{NavigationTurnView, TranscriptNavigationTurn};
use crate::response;
use crate::session::{AgentSession, SessionView};
use crate::text;
use crate::transcript;
use crate::transcript::{RowSplice, TranscriptRowKind};
use std::collections::{HashMap, HashSet};
use vstd::prelude::*;

verus! {

broadcast use vstd::std_specs::hash::group_hash_axioms;

/// What a response's footer copies, and when the response was complete.
pub struct Footer {
    pub copied: Option<String>,
    pub time: Option<u64>,
}

#[verifier::ext_equal]
pub struct FooterView {
    pub copied: Option<Seq<char>>,
    pub time: Option<u64>,
}

impl View for Footer {
    type V = FooterView;

    open spec fn view(&self) -> FooterView {
        FooterView { copied: text::text_view(self.copied), time: self.time }
    }
}

/// The views of several footers.
pub open spec fn footers_view(footers: Map<usize, Footer>) -> Map<usize, FooterView> {
    footers.map_values(|footer: Footer| footer@)
}

/// What is kept of the transcript.
pub struct TranscriptCache {
    pub rows: Vec<TranscriptRowKind>,
    /// The fingerprint of the transcript that the rows were made from.
    pub rows_fingerprint: Option<u64>,
    pub footers: HashMap<usize, Footer>,
    pub footers_fingerprint: Option<u64>,
    pub turns: Vec<TranscriptNavigationTurn>,
    pub turns_fingerprint: Option<u64>,
}

#[verifier::ext_equal]
pub struct CacheView {
    pub rows: Seq<TranscriptRowKind>,
    pub rows_fingerprint: Option<u64>,
    pub footers: Map<usize, FooterView>,
    pub footers_fingerprint: Option<u64>,
    pub turns: Seq<NavigationTurnView>,
    pub turns_fingerprint: Option<u64>,
}

impl View for TranscriptCache {
    type V = CacheView;

    open spec fn view(&self) -> CacheView {
        CacheView {
            rows: self.rows@,
            rows_fingerprint: self.rows_fingerprint,
            footers: footers_view(self.footers@),
            footers_fingerprint: self.footers_fingerprint,
            turns: navigation::entries_view(self.turns@),
            turns_fingerprint: self.turns_fingerprint,
        }
    }
}

// ── What the transcript yields ─────────────────────────────────────────────

/// The view of a session that may not be there.
pub open spec fn shown(session: Option<&AgentSession>) -> Option<SessionView> {
    match session {
        Some(session) => Some(session@),
        None => None,
    }
}

/// The fingerprint of what is shown.
pub open spec fn fingerprint_of(session: Option<SessionView>, expanded: Set<Id>) -> u64 {
    match session {
        Some(session) => transcript::fingerprint(transcript::shape_of(session), expanded),
        None => transcript::EMPTY_TRANSCRIPT_FINGERPRINT,
    }
}

/// The rows of what is shown.
pub open spec fn rows_of(session: Option<SessionView>, expanded: Set<Id>) -> Seq<
    TranscriptRowKind,
> {
    match session {
        Some(session) => transcript::folded_rows(transcript::shape_of(session), expanded),
        None => Seq::empty(),
    }
}

/// The footer of a message of what is shown.
pub open spec fn footer_of(session: Option<SessionView>, message_index: usize) -> FooterView {
    match session {
        Some(session) => FooterView {
            copied: response::footer_copy(session, message_index as int),
            time: response::footer_time(session, message_index as int),
        },
        None => FooterView { copied: None, time: None },
    }
}

/// The navigation entries of what is shown.
pub open spec fn turns_of(session: Option<SessionView>, rows: Seq<TranscriptRowKind>) -> Seq<
    NavigationTurnView,
> {
    match session {
        Some(session) => navigation::entries_from(session, rows, 0, 0),
        None => Seq::empty(),
    }
}

impl CacheView {
    /// The cache with the rows of what is shown.
    pub open spec fn refreshed(self, session: Option<SessionView>, expanded: Set<Id>) -> CacheView {
        let fingerprint = fingerprint_of(session, expanded);
        if self.rows_fingerprint == Some(fingerprint) {
            self
        } else {
            CacheView {
                rows: rows_of(session, expanded),
                rows_fingerprint: Some(fingerprint),
                ..self
            }
        }
    }

    /// The cache without the footers of another transcript.
    pub open spec fn with_footers_checked(self) -> CacheView {
        if self.footers_fingerprint == self.rows_fingerprint {
            self
        } else {
            CacheView {
                footers: Map::empty(),
                footers_fingerprint: self.rows_fingerprint,
                ..self
            }
        }
    }

    /// The cache with the footer of one message.
    pub open spec fn with_footer(
        self,
        session: Option<SessionView>,
        message_index: usize,
    ) -> CacheView {
        if self.footers.contains_key(message_index) {
            self
        } else {
            CacheView {
                footers: self.footers.insert(message_index, footer_of(session, message_index)),
                ..self
            }
        }
    }

    /// The cache with the navigation entries of what is shown.
    pub open spec fn with_turns(self, session: Option<SessionView>) -> CacheView {
        if self.turns_fingerprint == self.rows_fingerprint {
            self
        } else {
            CacheView {
                turns: turns_of(session, self.rows),
                turns_fingerprint: self.rows_fingerprint,
                ..self
            }
        }
    }

    /// Whether what the cache holds under a transcript's fingerprint is what
    /// that transcript yields.
    pub open spec fn faithful(self, session: Option<SessionView>, expanded: Set<Id>) -> bool {
        let fingerprint = Some(fingerprint_of(session, expanded));
        &&& self.rows_fingerprint == fingerprint ==> self.rows == rows_of(session, expanded)
        &&& self.footers_fingerprint == fingerprint ==> forall|i: usize| #[trigger]
            self.footers.contains_key(i) ==> self.footers[i] == footer_of(session, i)
        &&& self.turns_fingerprint == fingerprint ==> self.turns == turns_of(
            session,
            rows_of(session, expanded),
        )
    }
}

// ── Keeping up ─────────────────────────────────────────────────────────────

/// Whether what is shown is small enough to be numbered.
pub open spec fn numbered(session: Option<&AgentSession>) -> bool {
    match session {
        Some(session) => session.messages@.len() < usize::MAX,
        None => true,
    }
}

fn copy_footer(footer: &Footer) -> (copy: Footer)
    ensures
        copy@ == footer@,
{
    Footer { copied: text::copy_text(&footer.copied), time: footer.time }
}

impl TranscriptCache {
    /// A cache that holds nothing.
    pub fn new() -> (cache: TranscriptCache)
        ensures
            cache@ == (CacheView {
                rows: Seq::empty(),
                rows_fingerprint: None,
                footers: Map::empty(),
                footers_fingerprint: None,
                turns: Seq::empty(),
                turns_fingerprint: None,
            }),
    {
        let cache = TranscriptCache {
            rows: Vec::new(),
            rows_fingerprint: None,
            footers: HashMap::new(),
            footers_fingerprint: None,
            turns: Vec::new(),
            turns_fingerprint: None,
        };
        assert(cache@.footers =~= Map::empty());
        assert(cache@.turns =~= Seq::empty());
        cache
    }

    /// Folds the transcript again where it has changed, and counts its rows.
    pub fn refresh_transcript_row_kinds(
        &mut self,
        session: Option<&AgentSession>,
        expanded: &HashSet<Id>,
    ) -> (count: usize)
        requires
            numbered(session),
        ensures
            final(self)@ == old(self)@.refreshed(shown(session), expanded@),
            count == final(self)@.rows.len(),
    {
        let fingerprint: u64 = match session {
            Some(session) => transcript::transcript_rows_fingerprint(session, expanded),
            None => transcript::EMPTY_TRANSCRIPT_FINGERPRINT,
        };
        if self.rows_fingerprint != Some(fingerprint) {
            self.rows = match session {
                Some(session) => transcript::folded_transcript_row_kinds(session, expanded),
                None => Vec::new(),
            };
            self.rows_fingerprint = Some(fingerprint);
            assert(self@.rows =~= rows_of(shown(session), expanded@));
        }
        self.rows.len()
    }

    /// The footer of a message, worked out once for each state of the
    /// transcript.
    pub fn assistant_response_footer_cached(
        &mut self,
        session: Option<&AgentSession>,
        expanded: &HashSet<Id>,
        message_index: usize,
    ) -> (footer: Footer)
        requires
            numbered(session),
        ensures
            final(self)@ == old(self)@.refreshed(shown(session), expanded@).with_footers_checked(

            ).with_footer(shown(session), message_index),
            footer@ == final(self)@.footers[message_index],
    {
        self.refresh_transcript_row_kinds(session, expanded);
        if self.footers_fingerprint != self.rows_fingerprint {
            self.footers.clear();
            self.footers_fingerprint = self.rows_fingerprint;
            assert(footers_view(self.footers@) =~= Map::empty());
        }
        if let Some(footer) = self.footers.get(&message_index) {
            return copy_footer(footer);
        }
        let footer: Footer = match session {
            Some(session) => Footer {
                copied: response::assistant_response_footer(session, message_index),
                time: response::assistant_response_footer_time(session, message_index),
            },
            None => Footer { copied: None, time: None },
        };
        let kept = copy_footer(&footer);
        let ghost before = self.footers@;
        self.footers.insert(message_index, kept);
        assert(footers_view(self.footers@) =~= footers_view(before).insert(message_index, kept@));
        footer
    }

    /// Works the navigation entries out again where the transcript has
    /// changed.
    pub fn navigation_turns(&mut self, session: Option<&AgentSession>, expanded: &HashSet<Id>)
        requires
            numbered(session),
        ensures
            final(self)@ == old(self)@.refreshed(shown(session), expanded@).with_turns(
                shown(session),
            ),
    {
        self.refresh_transcript_row_kinds(session, expanded);
        if self.turns_fingerprint != self.rows_fingerprint {
            self.turns = match session {
                Some(session) => navigation::transcript_navigation_turns(session, &self.rows),
                None => Vec::new(),
            };
            self.turns_fingerprint = self.rows_fingerprint;
            assert(self@.turns =~= turns_of(shown(session), self@.rows));
        }
    }

    /// How the list on screen follows a change of what is folded.
    pub fn splice_transcript_rows_after_visibility_change(
        &mut self,
        session: Option<&AgentSession>,
        expanded: &HashSet<Id>,
        previous: &Vec<TranscriptRowKind>,
    ) -> (splice: Option<RowSplice>)
        requires
            numbered(session),
        ensures
            final(self)@ == old(self)@.refreshed(shown(session), expanded@),
            splice == transcript::splice_between(previous@, final(self)@.rows),
    {
        self.refresh_transcript_row_kinds(session, expanded);
        transcript::transcript_row_splice(previous, &self.rows)
    }
}

// ── Finding rows ───────────────────────────────────────────────────────────

/// The first of several rows that is a given one.
pub open spec fn first_row(rows: Seq<TranscriptRowKind>, target: TranscriptRowKind) -> Option<
    usize,
>
    decreases rows.len(),
{
    if rows.len() == 0 {
        None
    } else {
        match first_row(rows.drop_last(), target) {
            Some(row) => Some(row),
            None => if rows.last() == target {
                Some((rows.len() - 1) as usize)
            } else {
                None
            },
        }
    }
}

fn find_row(rows: &Vec<TranscriptRowKind>, target: TranscriptRowKind) -> (row: Option<usize>)
    ensures
        row == first_row(rows@, target),
{
    let count: usize = rows.len();
    let mut i: usize = 0;
    while i < count
        invariant
            i <= count,
            count == rows@.len(),
            first_row(rows@.take(i as int), target) is None,
        decreases count - i,
    {
        assert(rows@.take(i + 1).drop_last() =~= rows@.take(i as int));
        if rows[i] == target {
            proof {
                lemma_first_row_stays(rows@, i + 1, target);
            }
            return Some(i);
        }
        i += 1;
    }
    assert(rows@.take(count as int) =~= rows@);
    None
}

proof fn lemma_first_row_stays(rows: Seq<TranscriptRowKind>, n: int, target: TranscriptRowKind)
    requires
        0 <= n <= rows.len(),
        first_row(rows.take(n), target) is Some,
    ensures
        first_row(rows, target) == first_row(rows.take(n), target),
    decreases rows.len() - n,
{
    if n < rows.len() {
        assert(rows.take(n + 1).drop_last() =~= rows.take(n));
        lemma_first_row_stays(rows, n + 1, target);
    } else {
        assert(rows.take(n) =~= rows);
    }
}

/// The row to be measured again, where it is shown.
pub fn remeasure_transcript_row(rows: &Vec<TranscriptRowKind>, target: TranscriptRowKind) -> (range:
    Option<RowRange>)
    requires
        rows@.len() < usize::MAX,
    ensures
        match first_row(rows@, target) {
            Some(row) => range == Some(RowRange { from: row, to: (row + 1) as usize }),
            None => range is None,
        },
{
    match find_row(rows, target) {
        Some(row) => {
            proof {
                lemma_first_row_is_there(rows@, target);
            }
            Some(RowRange { from: row, to: row + 1 })
        },
        None => None,
    }
}

proof fn lemma_first_row_is_there(rows: Seq<TranscriptRowKind>, target: TranscriptRowKind)
    requires
        rows.len() <= usize::MAX,
    ensures
        match first_row(rows, target) {
            Some(row) => row < rows.len() && rows[row as int] == target,
            None => true,
        },
    decreases rows.len(),
{
    if rows.len() > 0 {
        lemma_first_row_is_there(rows.drop_last(), target);
    }
}

/// The row that shows the files that a turn changed: the footer of its
/// response, or a row of their own.
pub fn remeasure_changed_files(session: Option<&AgentSession>, turn_id: Id) -> (target:
    TranscriptRowKind)
    requires
        numbered(session),
    ensures
        target == (match shown(session) {
            Some(session) => match transcript::footer_message(
                transcript::shape_of(session),
                transcript::produced_rows(transcript::shape_of(session), turn_id),
            ) {
                Some(message) => TranscriptRowKind::ResponseFooter(turn_id, message),
                None => TranscriptRowKind::ChangedFiles(turn_id),
            },
            None => TranscriptRowKind::ChangedFiles(turn_id),
        }),
{
    match session {
        Some(session) => match transcript::response_footer_message_index(session, turn_id) {
            Some(message) => TranscriptRowKind::ResponseFooter(turn_id, message),
            None => TranscriptRowKind::ChangedFiles(turn_id),
        },
        None => TranscriptRowKind::ChangedFiles(turn_id),
    }
}

/// The turn that stays at the top of the viewport while it is answered.
#[derive(Clone, Copy, Debug, PartialEq, Eq, Structural)]
pub struct TranscriptAnchor {
    pub session_id: Id,
    pub turn_id: Id,
}

/// The first of the first `n` messages with which the user opened a turn.
pub open spec fn opening_message(session: SessionView, turn_id: Id, n: int) -> Option<usize>
    decreases n,
{
    if n <= 0 {
        None
    } else {
        match opening_message(session, turn_id, n - 1) {
            Some(message) => Some(message),
            None => if session.messages[n - 1].role == MessageRole::User
                && session.messages[n - 1].turn_id == Some(turn_id) {
                Some((n - 1) as usize)
            } else {
                None
            },
        }
    }
}

/// The row of the turn that stays at the top.
pub open spec fn anchor_row(
    anchor: Option<TranscriptAnchor>,
    session: Option<SessionView>,
    rows: Seq<TranscriptRowKind>,
) -> Option<usize> {
    match (anchor, session) {
        (Some(anchor), Some(session)) => if session.id != anchor.session_id {
            None
        } else {
            match opening_message(session, anchor.turn_id, session.messages.len() as int) {
                Some(message) => first_row(rows, TranscriptRowKind::Message(message)),
                None => None,
            }
        },
        _ => None,
    }
}

fn find_opening_message(session: &AgentSession, turn_id: Id) -> (message: Option<usize>)
    ensures
        message == opening_message(session@, turn_id, session@.messages.len() as int),
{
    let count: usize = session.messages.len();
    let mut i: usize = 0;
    let mut found: Option<usize> = None;
    while i < count
        invariant
            i <= count,
            count == session.messages@.len(),
            count == session@.messages.len(),
            found == opening_message(session@, turn_id, i as int),
        decreases count - i,
    {
        assert(session@.messages[i as int] == session.messages@[i as int]@);
        if found.is_none() && session.messages[i].role == MessageRole::User
            && session.messages[i].turn_id == Some(turn_id) {
            found = Some(i);
        }
        i += 1;
    }
    found
}

/// The row of the turn that stays at the top: the message with which the user
/// opened it.
pub fn selected_transcript_anchor_row(
    anchor: Option<TranscriptAnchor>,
    session: Option<&AgentSession>,
    rows: &Vec<TranscriptRowKind>,
) -> (row: Option<usize>)
    ensures
        row == anchor_row(anchor, shown(session), rows@),
{
    match (anchor, session) {
        (Some(anchor), Some(session)) => {
            if session.id != anchor.session_id {
                return None;
            }
            match find_opening_message(session, anchor.turn_id) {
                Some(message) => find_row(rows, TranscriptRowKind::Message(message)),
                None => None,
            }
        },
        _ => None,
    }
}

// ── What the cache promises ────────────────────────────────────────────────

/// A cache that is faithful to what is shown yields its rows, and stays
/// faithful.
pub proof fn cached_rows_are_the_rows(
    cache: CacheView,
    session: Option<SessionView>,
    expanded: Set<Id>,
)
    requires
        cache.faithful(session, expanded),
    ensures
        cache.refreshed(session, expanded).rows == rows_of(session, expanded),
        cache.refreshed(session, expanded).faithful(session, expanded),
{
}

/// A cache that is faithful to what is shown yields its footers, whether or
/// not they were worked out before, and stays faithful.
pub proof fn cached_footers_are_the_footers(
    cache: CacheView,
    session: Option<SessionView>,
    expanded: Set<Id>,
    message_index: usize,
)
    requires
        cache.faithful(session, expanded),
    ensures
        ({
            let after = cache.refreshed(session, expanded).with_footers_checked().with_footer(
                session,
                message_index,
            );
            &&& after.footers[message_index] == footer_of(session, message_index)
            &&& after.faithful(session, expanded)
        }),
{
}

/// A cache that is faithful to what is shown yields its navigation entries,
/// and stays faithful.
pub proof fn cached_turns_are_the_turns(
    cache: CacheView,
    session: Option<SessionView>,
    expanded: Set<Id>,
)
    requires
        cache.faithful(session, expanded),
    ensures
        ({
            let after = cache.refreshed(session, expanded).with_turns(session);
            &&& after.turns == turns_of(session, rows_of(session, expanded))
            &&& after.faithful(session, expanded)
        }),
{
}

} // verus!
