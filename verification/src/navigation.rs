//! The conversation's table of contents: one entry per prompt, with a short
//! preview of the prompt and of its answer.
use crate::model::{Id, Message, MessageRole, MessageView, TurnStatus, TurnView};
use crate::session::{AgentSession, SessionView};
use crate::text;
use crate::transcript::TranscriptRowKind;
use unicode_segmentation::UnicodeSegmentation;
use vstd::prelude::*;

verus! {

// ── Snippets ───────────────────────────────────────────────────────────────

/// How many leading characters of `text` are not whitespace.
pub open spec fn word_len(text: Seq<char>) -> nat
    decreases text.len(),
{
    if text.len() == 0 || text::is_whitespace(text[0]) {
        0
    } else {
        1 + word_len(text.skip(1))
    }
}

/// The words of a text: its longest runs without whitespace.
pub open spec fn words(text: Seq<char>) -> Seq<Seq<char>>
    decreases text.len(),
    via words_terminate
{
    if text.len() == 0 {
        Seq::empty()
    } else if text::is_whitespace(text[0]) {
        words(text.skip(1))
    } else {
        seq![text.take(word_len(text) as int)] + words(text.skip(word_len(text) as int))
    }
}

#[via_fn]
proof fn words_terminate(text: Seq<char>) {
    lemma_word_fits(text);
}

proof fn lemma_word_fits(text: Seq<char>)
    ensures
        word_len(text) <= text.len(),
    decreases text.len(),
{
    if text.len() > 0 && !text::is_whitespace(text[0]) {
        lemma_word_fits(text.skip(1));
    }
}

/// The words of a text with one space between neighbours.
pub open spec fn normalized(text: Seq<char>) -> Seq<char> {
    text::joined(words(text), " "@)
}

/// The extended grapheme clusters of a text.
pub uninterp spec fn graphemes(text: Seq<char>) -> Seq<Seq<char>>;

/// The pieces one after another.
pub open spec fn concatenated(pieces: Seq<Seq<char>>) -> Seq<char>
    decreases pieces.len(),
{
    if pieces.len() == 0 {
        Seq::empty()
    } else {
        concatenated(pieces.drop_last()) + pieces.last()
    }
}

/// `UnicodeSegmentation::graphemes` with extended clusters cuts the text into
/// its user-perceived characters. Which cuts it makes depends on the text
/// alone, and the pieces in order make up the whole text.
#[verifier::external_body]
fn grapheme_clusters(text: &str) -> (clusters: Vec<String>)
    ensures
        text::texts_view(clusters@) == graphemes(text@),
        concatenated(text::texts_view(clusters@)) == text@,
{
    text.graphemes(true).map(|cluster| cluster.to_owned()).collect()
}

/// The first `max` clusters, followed by an ellipsis where more remain.
pub open spec fn clipped(clusters: Seq<Seq<char>>, max: nat) -> Seq<char> {
    if clusters.len() > max {
        concatenated(clusters.take(max as int)) + "…"@
    } else {
        concatenated(clusters)
    }
}

/// The first `max` clusters, followed by an ellipsis where more remain.
pub fn clip_clusters(clusters: &Vec<String>, max: usize) -> (snippet: String)
    ensures
        snippet@ == clipped(text::texts_view(clusters@), max as nat),
{
    let ghost pieces = text::texts_view(clusters@);
    let mut snippet = String::new();
    let mut i: usize = 0;
    assert(pieces.take(0) == Seq::<Seq<char>>::empty());
    while i < clusters.len() && i < max
        invariant
            i <= clusters@.len(),
            i <= max,
            pieces == text::texts_view(clusters@),
            snippet@ == concatenated(pieces.take(i as int)),
        decreases clusters@.len() - i,
    {
        assert(pieces.take(i + 1).drop_last() == pieces.take(i as int));
        assert(pieces.take(i + 1).last() == clusters@[i as int]@);
        snippet.append(clusters[i].as_str());
        i += 1;
    }
    if i < clusters.len() {
        snippet.append("…");
    } else {
        assert(pieces.take(i as int) == pieces);
    }
    snippet
}

/// The preview of a text: on one line, and at most `max` user-perceived
/// characters of it.
pub open spec fn preview(text: Seq<char>, max: nat) -> Seq<char> {
    clipped(graphemes(normalized(text)), max)
}

proof fn lemma_word_len(text: Seq<char>, k: int)
    requires
        0 <= k <= text.len(),
        forall|i: int| 0 <= i < k ==> !text::is_whitespace(#[trigger] text[i]),
        k < text.len() ==> text::is_whitespace(text[k]),
    ensures
        word_len(text) == k,
    decreases k,
{
    if k > 0 {
        assert(!text::is_whitespace(text[0]));
        let rest = text.skip(1);
        assert forall|i: int| 0 <= i < k - 1 implies !text::is_whitespace(#[trigger] rest[i]) by {
            assert(rest[i] == text[i + 1]);
        }
        lemma_word_len(rest, k - 1);
    }
}

/// The words of a text.
pub fn split_words(text: &str) -> (parts: Vec<String>)
    ensures
        text::texts_view(parts@) == words(text@),
{
    let chars = text::chars_of(text);
    let mut parts: Vec<String> = Vec::new();
    let mut i: usize = 0;
    assert(chars@.skip(0) == chars@);
    assert(text::texts_view(parts@) + words(chars@) =~= words(text@));
    while i < chars.len()
        invariant
            i <= chars@.len(),
            chars@ == text@,
            text::texts_view(parts@) + words(chars@.skip(i as int)) == words(text@),
        decreases chars@.len() - i,
    {
        let ghost rest = chars@.skip(i as int);
        assert(rest[0] == chars@[i as int]);
        if chars[i].is_whitespace() {
            assert(rest.skip(1) == chars@.skip(i + 1));
            i += 1;
        } else {
            let start: usize = i;
            let mut end: usize = i;
            while end < chars.len() && !chars[end].is_whitespace()
                invariant
                    start <= end <= chars@.len(),
                    forall|k: int|
                        start <= k < end ==> !text::is_whitespace(#[trigger] chars@[k]),
                decreases chars@.len() - end,
            {
                end += 1;
            }
            proof {
                assert forall|k: int| 0 <= k < end - start implies !text::is_whitespace(
                    #[trigger] rest[k],
                ) by {
                    assert(rest[k] == chars@[start + k]);
                }
                if end < chars@.len() {
                    assert(rest[end - start] == chars@[end as int]);
                }
                lemma_word_len(rest, end - start);
                if end == start {
                    assert(text::is_whitespace(rest[0]));
                }
            }
            let ghost before = text::texts_view(parts@);
            let word = text::text_of(&chars, start, end);
            proof {
                assert(rest.take(end - start) == word@);
                assert(rest.skip(end - start) == chars@.skip(end as int));
            }
            parts.push(word);
            assert(text::texts_view(parts@) =~= before.push(word@));
            assert(before + (seq![word@] + words(chars@.skip(end as int))) =~= before.push(word@)
                + words(chars@.skip(end as int)));
            i = end;
        }
    }
    assert(words(chars@.skip(i as int)) == Seq::<Seq<char>>::empty());
    assert(text::texts_view(parts@) + Seq::<Seq<char>>::empty() =~= text::texts_view(parts@));
    parts
}

/// The preview of a text: on one line, and at most `max_graphemes`
/// user-perceived characters of it.
pub fn navigation_preview_snippet(content: &str, max_graphemes: usize) -> (snippet: String)
    ensures
        snippet@ == preview(content@, max_graphemes as nat),
{
    let parts = split_words(content);
    let line = text::join(&parts, " ");
    let clusters = grapheme_clusters(line.as_str());
    clip_clusters(&clusters, max_graphemes)
}

// ── Entries ────────────────────────────────────────────────────────────────

/// One entry of the table of contents.
pub struct TranscriptNavigationTurn {
    pub message_id: Id,
    pub message_index: usize,
    pub row_index: usize,
    pub prompt: String,
    pub response: String,
}

#[verifier::ext_equal]
pub struct NavigationTurnView {
    pub message_id: Id,
    pub message_index: usize,
    pub row_index: usize,
    pub prompt: Seq<char>,
    pub response: Seq<char>,
}

impl View for TranscriptNavigationTurn {
    type V = NavigationTurnView;

    open spec fn view(&self) -> NavigationTurnView {
        NavigationTurnView {
            message_id: self.message_id,
            message_index: self.message_index,
            row_index: self.row_index,
            prompt: self.prompt@,
            response: self.response@,
        }
    }
}

/// The views of the entries.
pub open spec fn entries_view(entries: Seq<TranscriptNavigationTurn>) -> Seq<NavigationTurnView> {
    entries.map_values(|entry: TranscriptNavigationTurn| entry@)
}

/// The first row at or after `from` that shows message `message` or a later
/// one, or the number of rows.
pub open spec fn row_at_or_after(
    rows: Seq<TranscriptRowKind>,
    from: int,
    message: int,
) -> int
    decreases rows.len() - from,
{
    if from < 0 || from >= rows.len() {
        rows.len() as int
    } else if rows[from] matches TranscriptRowKind::Message(shown) && shown >= message {
        from
    } else {
        row_at_or_after(rows, from + 1, message)
    }
}

/// The first user message at or after `from`, or the number of messages.
pub open spec fn next_user(messages: Seq<MessageView>, from: int) -> int
    decreases messages.len() - from,
{
    if from < 0 || from >= messages.len() {
        messages.len() as int
    } else if messages[from].role == MessageRole::User {
        from
    } else {
        next_user(messages, from + 1)
    }
}

/// The last of the assistant's texts from `from` up to `to` that is not blank.
pub open spec fn last_reply(messages: Seq<MessageView>, from: int, to: int) -> Option<Seq<char>>
    decreases to,
{
    if to <= from || to <= 0 {
        None
    } else if messages[to - 1].role == MessageRole::Assistant && !text::blank(
        messages[to - 1].content,
    ) {
        Some(messages[to - 1].content)
    } else {
        last_reply(messages, from, to - 1)
    }
}

/// Whether a running turn has this identity.
pub open spec fn is_running(turns: Seq<TurnView>, turn_id: Id) -> bool {
    exists|i: int|
        0 <= i < turns.len() && (#[trigger] turns[i]).id == turn_id && turns[i].status
            == TurnStatus::Running
}

/// The names of a message's attachments.
pub open spec fn attachment_names(message: MessageView) -> Seq<Seq<char>> {
    Seq::new(message.attachments.len(), |i: int| message.attachments[i].name)
}

/// What the entry shows of the prompt: its text, or the names of what is
/// attached to it where there is no text.
pub open spec fn prompt_preview(message: MessageView) -> Seq<char> {
    if text::blank(message.visible()) {
        text::joined(attachment_names(message), ", "@)
    } else {
        preview(message.visible(), 100)
    }
}

/// What the entry shows of the answer to prompt `index`: nothing while its
/// turn runs.
pub open spec fn response_preview(session: SessionView, index: int) -> Seq<char> {
    let running = match session.messages[index].turn_id {
        Some(turn_id) => is_running(session.turns, turn_id),
        None => false,
    };
    if running {
        Seq::empty()
    } else {
        match last_reply(session.messages, index + 1, next_user(session.messages, index + 1)) {
            Some(reply) => preview(reply, 240),
            None => Seq::empty(),
        }
    }
}

/// The entries for the prompts from message `index` on, whose rows are looked
/// for from row `cursor` on. A prompt without a row has no entry.
pub open spec fn entries_from(
    session: SessionView,
    rows: Seq<TranscriptRowKind>,
    index: int,
    cursor: int,
) -> Seq<NavigationTurnView>
    decreases session.messages.len() - index,
{
    if index < 0 || index >= session.messages.len() {
        Seq::empty()
    } else if session.messages[index].role != MessageRole::User {
        entries_from(session, rows, index + 1, cursor)
    } else {
        let row = row_at_or_after(rows, cursor, index);
        if row < rows.len() && rows[row] == TranscriptRowKind::Message(index as usize) {
            seq![
                NavigationTurnView {
                    message_id: session.messages[index].id,
                    message_index: index as usize,
                    row_index: row as usize,
                    prompt: prompt_preview(session.messages[index]),
                    response: response_preview(session, index),
                },
            ] + entries_from(session, rows, index + 1, row)
        } else {
            entries_from(session, rows, index + 1, row)
        }
    }
}

fn prompt_text(message: &Message) -> (prompt: String)
    ensures
        prompt@ == prompt_preview(message@),
{
    if !text::is_blank(message.visible_content()) {
        return navigation_preview_snippet(message.visible_content(), 100);
    }
    let mut names: Vec<String> = Vec::new();
    let mut i: usize = 0;
    while i < message.attachments.len()
        invariant
            i <= message.attachments@.len(),
            text::texts_view(names@) == attachment_names(message@).take(i as int),
        decreases message.attachments@.len() - i,
    {
        let ghost before = text::texts_view(names@);
        names.push(message.attachments[i].name.clone());
        assert(text::texts_view(names@) =~= before.push(message.attachments@[i as int].name@));
        assert(attachment_names(message@).take(i + 1) =~= attachment_names(message@).take(
            i as int,
        ).push(message.attachments@[i as int].name@));
        i += 1;
    }
    assert(attachment_names(message@).take(i as int) =~= attachment_names(message@));
    text::join(&names, ", ")
}

fn turn_is_running(session: &AgentSession, turn_id: Id) -> (running: bool)
    ensures
        running == is_running(session@.turns, turn_id),
{
    let mut i: usize = 0;
    while i < session.turns.len()
        invariant
            i <= session.turns@.len(),
            forall|k: int|
                0 <= k < i ==> !((#[trigger] session@.turns[k]).id == turn_id
                    && session@.turns[k].status == TurnStatus::Running),
        decreases session.turns@.len() - i,
    {
        assert(session@.turns[i as int] == session.turns@[i as int]@);
        if session.turns[i].id == turn_id && session.turns[i].status == TurnStatus::Running {
            return true;
        }
        i += 1;
    }
    false
}

proof fn lemma_next_user(messages: Seq<MessageView>, from: int)
    requires
        0 <= from <= messages.len(),
    ensures
        from <= next_user(messages, from) <= messages.len(),
    decreases messages.len() - from,
{
    if from < messages.len() && messages[from].role != MessageRole::User {
        lemma_next_user(messages, from + 1);
    }
}

fn response_text(session: &AgentSession, index: usize) -> (response: String)
    requires
        index < session.messages@.len(),
    ensures
        response@ == response_preview(session@, index as int),
{
    let ghost messages = session@.messages;
    assert(messages[index as int] == session.messages@[index as int]@);
    if let Some(turn_id) = session.messages[index].turn_id {
        if turn_is_running(session, turn_id) {
            return String::new();
        }
    }
    let count: usize = session.messages.len();
    let mut end: usize = index + 1;
    while end < count && session.messages[end].role != MessageRole::User
        invariant
            index + 1 <= end <= count,
            count == session.messages@.len(),
            messages == session@.messages,
            next_user(messages, index + 1) == next_user(messages, end as int),
        decreases session.messages@.len() - end,
    {
        assert(messages[end as int] == session.messages@[end as int]@);
        end += 1;
    }
    assert(end < messages.len() ==> messages[end as int] == session.messages@[end as int]@);
    let ghost stop = next_user(messages, index + 1);
    assert(stop == end);
    while end > index + 1
        invariant
            index + 1 <= end <= session.messages@.len(),
            messages == session@.messages,
            last_reply(messages, index + 1, stop) == last_reply(messages, index + 1, end as int),
            response_preview(session@, index as int) == (match last_reply(
                messages,
                index + 1,
                stop,
            ) {
                Some(reply) => preview(reply, 240),
                None => Seq::empty(),
            }),
        decreases end,
    {
        assert(messages[end - 1] == session.messages@[end - 1]@);
        let candidate = &session.messages[end - 1];
        if candidate.role == MessageRole::Assistant && !text::is_blank(candidate.content.as_str()) {
            return navigation_preview_snippet(candidate.content.as_str(), 240);
        }
        end -= 1;
    }
    String::new()
}

/// One entry per prompt that has a row. Message rows keep ascending message
/// order through folding, so one walk over the rows finds them all.
pub fn transcript_navigation_turns(session: &AgentSession, row_kinds: &Vec<TranscriptRowKind>) -> (turns:
    Vec<TranscriptNavigationTurn>)
    ensures
        entries_view(turns@) == entries_from(session@, row_kinds@, 0, 0),
{
    let ghost all = entries_from(session@, row_kinds@, 0, 0);
    let mut turns: Vec<TranscriptNavigationTurn> = Vec::new();
    let mut cursor: usize = 0;
    let mut index: usize = 0;
    assert(entries_view(turns@) + all =~= all);
    while index < session.messages.len()
        invariant
            index <= session.messages@.len(),
            cursor <= row_kinds@.len(),
            all == entries_from(session@, row_kinds@, 0, 0),
            entries_view(turns@) + entries_from(
                session@,
                row_kinds@,
                index as int,
                cursor as int,
            ) == all,
        decreases session.messages@.len() - index,
    {
        let message = &session.messages[index];
        assert(session@.messages[index as int] == message@);
        if message.role == MessageRole::User {
            let ghost start = cursor as int;
            let mut found: bool = false;
            let mut searching: bool = true;
            while searching && cursor < row_kinds.len()
                invariant
                    cursor <= row_kinds@.len(),
                    row_at_or_after(row_kinds@, start, index as int) == row_at_or_after(
                        row_kinds@,
                        cursor as int,
                        index as int,
                    ),
                    !searching ==> cursor < row_kinds@.len() && row_at_or_after(
                        row_kinds@,
                        cursor as int,
                        index as int,
                    ) == cursor,
                    found ==> !searching && row_kinds@[cursor as int]
                        == TranscriptRowKind::Message(index),
                    !searching && !found ==> row_kinds@[cursor as int]
                        != TranscriptRowKind::Message(index),
                decreases
                    row_kinds@.len() - cursor + (if searching {
                        1int
                    } else {
                        0
                    }),
            {
                match row_kinds[cursor] {
                    TranscriptRowKind::Message(shown) => {
                        if shown >= index {
                            searching = false;
                            found = shown == index;
                        } else {
                            cursor += 1;
                        }
                    },
                    _ => {
                        cursor += 1;
                    },
                }
            }
            assert(row_at_or_after(row_kinds@, start, index as int) == cursor);
            if found {
                let ghost before = entries_view(turns@);
                let entry = TranscriptNavigationTurn {
                    message_id: message.id,
                    message_index: index,
                    row_index: cursor,
                    prompt: prompt_text(message),
                    response: response_text(session, index),
                };
                let ghost shown = entry@;
                turns.push(entry);
                proof {
                    let rest = entries_from(session@, row_kinds@, index + 1, cursor as int);
                    assert(entries_view(turns@) =~= before.push(shown));
                    assert(before + (seq![shown] + rest) =~= before.push(shown) + rest);
                }
            }
        }
        index += 1;
    }
    assert(entries_view(turns@) + Seq::<NavigationTurnView>::empty() =~= entries_view(turns@));
    turns
}

/// While its turn runs, an entry shows nothing of the answer, whatever text
/// has arrived.
pub proof fn a_running_turn_previews_no_response(session: SessionView, index: int, turn_id: Id)
    requires
        0 <= index < session.messages.len(),
        session.messages[index].turn_id == Some(turn_id),
        is_running(session.turns, turn_id),
    ensures
        response_preview(session, index) == Seq::<char>::empty(),
{
}

// ── The active entry ───────────────────────────────────────────────────────

/// How many of the rows stand at or above `top`.
pub open spec fn rows_above(rows: Seq<usize>, top: usize) -> nat
    decreases rows.len(),
{
    if rows.len() == 0 {
        0
    } else {
        rows_above(rows.drop_last(), top) + (if rows.last() <= top {
            1nat
        } else {
            0
        })
    }
}

proof fn lemma_rows_above(rows: Seq<usize>, top: usize, k: int)
    requires
        0 <= k <= rows.len(),
        forall|i: int| 0 <= i < k ==> #[trigger] rows[i] <= top,
        forall|i: int| k <= i < rows.len() ==> #[trigger] rows[i] > top,
    ensures
        rows_above(rows, top) == k,
    decreases rows.len(),
{
    if rows.len() > 0 {
        let rest = rows.drop_last();
        if k == rows.len() {
            lemma_rows_above(rest, top, k - 1);
        } else {
            lemma_rows_above(rest, top, k);
        }
    }
}

/// The entry that the reader is at: the last one whose row is not below the
/// top of the view, the first one above them all, and the last one at the end
/// of the transcript.
pub fn active_navigation_turn_index(
    turn_rows: &Vec<usize>,
    scroll_top_row: usize,
    at_transcript_end: bool,
) -> (active: Option<usize>)
    requires
        forall|i: int, j: int| 0 <= i <= j < turn_rows@.len() ==> turn_rows@[i] <= turn_rows@[j],
    ensures
        match active {
            None => turn_rows@.len() == 0,
            Some(index) => turn_rows@.len() > 0 && index == (if at_transcript_end {
                turn_rows@.len() - 1
            } else if rows_above(turn_rows@, scroll_top_row) == 0 {
                0
            } else {
                rows_above(turn_rows@, scroll_top_row) - 1
            }),
        },
{
    if turn_rows.is_empty() {
        return None;
    }
    if at_transcript_end {
        return Some(turn_rows.len() - 1);
    }
    let mut low: usize = 0;
    let mut high: usize = turn_rows.len();
    while low < high
        invariant
            low <= high <= turn_rows@.len(),
            forall|i: int, j: int|
                0 <= i <= j < turn_rows@.len() ==> turn_rows@[i] <= turn_rows@[j],
            forall|i: int| 0 <= i < low ==> #[trigger] turn_rows@[i] <= scroll_top_row,
            forall|i: int|
                high <= i < turn_rows@.len() ==> #[trigger] turn_rows@[i] > scroll_top_row,
        decreases high - low,
    {
        let middle: usize = low + (high - low) / 2;
        if turn_rows[middle] <= scroll_top_row {
            low = middle + 1;
        } else {
            high = middle;
        }
    }
    proof {
        lemma_rows_above(turn_rows@, scroll_top_row, low as int);
    }
    Some(low.saturating_sub(1))
}

} // verus!
