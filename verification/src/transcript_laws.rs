//! What the transcript shows: where messages and work stand, which of them make
//! up an answer, and what stands below a response, said of the messages, the
//! blocks and the turns alone.
use crate::model::{Id, MessageRole, MessageView, TurnStatus, TurnView};
use crate::navigation;
use crate::navigation::NavigationTurnView;
use crate::response;
use crate::session::SessionView;
use crate::text;
use crate::transcript;
use crate::transcript::{Trailer, TranscriptRowKind, TranscriptShape};
use vstd::prelude::*;

verus! {

// ── The order of the rows ──────────────────────────────────────────────────

proof fn lemma_blocks_settled(anchors: Seq<usize>, count: nat, at: nat)
    requires
        forall|i: int| 0 <= i < anchors.len() ==> #[trigger] anchors[i] <= count,
    ensures
        at <= count ==> transcript::blocks_at(anchors, count + 1, at) == transcript::blocks_at(
            anchors,
            count,
            at,
        ),
        at == count + 1 ==> transcript::blocks_at(anchors, count + 1, at).len() == 0,
    decreases anchors.len(),
{
    if anchors.len() > 0 {
        let front = anchors.drop_last();
        assert forall|i: int| 0 <= i < front.len() implies #[trigger] front[i] <= count by {
            assert(anchors[i] <= count);
        }
        lemma_blocks_settled(front, count, at);
        assert(anchors[anchors.len() - 1] <= count);
    }
}

proof fn lemma_rows_settled(anchors: Seq<usize>, count: nat, upto: nat)
    requires
        upto <= count,
        forall|i: int| 0 <= i < anchors.len() ==> #[trigger] anchors[i] <= count,
    ensures
        transcript::rows_upto(anchors, count + 1, upto) == transcript::rows_upto(
            anchors,
            count,
            upto,
        ),
    decreases upto,
{
    lemma_blocks_settled(anchors, count, upto);
    if upto > 0 {
        lemma_rows_settled(anchors, count, (upto - 1) as nat);
    }
}

/// A new message stands behind everything that was there.
pub proof fn a_new_message_stands_last(anchors: Seq<usize>, count: nat)
    requires
        forall|i: int| 0 <= i < anchors.len() ==> #[trigger] anchors[i] <= count,
    ensures
        transcript::raw_rows(count + 1, anchors) == transcript::raw_rows(count, anchors).push(
            TranscriptRowKind::Message(count as usize),
        ),
        transcript::raw_rows(0, Seq::empty()).len() == 0,
{
    lemma_rows_settled(anchors, count, count);
    lemma_blocks_settled(anchors, count, count + 1);
    let rows = transcript::rows_upto(anchors, count + 1, count).push(
        TranscriptRowKind::Message(count as usize),
    );
    assert(rows + transcript::blocks_at(anchors, count + 1, count + 1) =~= rows);
}

proof fn lemma_rows_below(anchors: Seq<usize>, anchor: usize, count: nat, upto: nat)
    requires
        anchor >= count,
        upto < count,
    ensures
        transcript::rows_upto(anchors.push(anchor), count, upto) == transcript::rows_upto(
            anchors,
            count,
            upto,
        ),
    decreases upto,
{
    assert(anchors.push(anchor).drop_last() =~= anchors);
    if upto > 0 {
        lemma_rows_below(anchors, anchor, count, (upto - 1) as nat);
    }
}

/// A new block of work stands behind everything that was there when it arrived.
pub proof fn a_new_block_stands_last(anchors: Seq<usize>, anchor: usize, count: nat)
    requires
        anchor >= count,
    ensures
        transcript::raw_rows(count, anchors.push(anchor)) == transcript::raw_rows(
            count,
            anchors,
        ).push(TranscriptRowKind::TurnBlock(anchors.len() as usize)),
{
    assert(anchors.push(anchor).drop_last() =~= anchors);
    let block = TranscriptRowKind::TurnBlock(anchors.len() as usize);
    if count > 0 {
        lemma_rows_below(anchors, anchor, count, (count - 1) as nat);
        let rows = transcript::rows_upto(anchors, count, (count - 1) as nat).push(
            TranscriptRowKind::Message((count - 1) as usize),
        );
        let blocks = transcript::blocks_at(anchors, count, count);
        assert(rows + blocks.push(block) =~= (rows + blocks).push(block));
    }
}

// ── The answer ─────────────────────────────────────────────────────────────

/// Whether a row is a message with words in it.
pub open spec fn words_in(shape: TranscriptShape, row: TranscriptRowKind) -> bool {
    row is Message && row->Message_0 < shape.messages.len()
        && !shape.messages[row->Message_0 as int].blank
}

proof fn lemma_last_words(shape: TranscriptShape, rows: Seq<TranscriptRowKind>, last: int)
    requires
        -1 <= last < rows.len(),
        last >= 0 ==> words_in(shape, rows[last]),
        forall|i: int| last < i < rows.len() ==> !words_in(shape, #[trigger] rows[i]),
    ensures
        transcript::last_text(shape, rows) == last,
    decreases rows.len(),
{
    if rows.len() > 0 && last < rows.len() - 1 {
        assert(!words_in(shape, rows[rows.len() - 1]));
        let front = rows.drop_last();
        assert forall|i: int| last < i < front.len() implies !words_in(
            shape,
            #[trigger] front[i],
        ) by {
            assert(!words_in(shape, rows[i]));
        }
        lemma_last_words(shape, front, last);
    }
}

proof fn lemma_run_of_words(
    shape: TranscriptShape,
    rows: Seq<TranscriptRowKind>,
    start: int,
    end: int,
)
    requires
        0 <= start <= end <= rows.len(),
        forall|i: int| start <= i < end ==> words_in(shape, #[trigger] rows[i]),
        start > 0 ==> !words_in(shape, rows[start - 1]),
    ensures
        transcript::run_start(shape, rows, end) == start,
    decreases end,
{
    if start < end {
        assert(words_in(shape, rows[end - 1]));
        lemma_run_of_words(shape, rows, start, end - 1);
    }
}

/// The answer among a turn's rows is the unbroken run of messages with words
/// that ends with the last of them; rows without any have no answer.
pub proof fn the_answer_is_the_last_run_of_words(
    shape: TranscriptShape,
    rows: Seq<TranscriptRowKind>,
    start: int,
    last: int,
)
    requires
        -1 <= last < rows.len(),
        forall|i: int| last < i < rows.len() ==> !words_in(shape, #[trigger] rows[i]),
        last >= 0 ==> {
            &&& 0 <= start <= last
            &&& forall|i: int| start <= i <= last ==> words_in(shape, #[trigger] rows[i])
            &&& start > 0 ==> !words_in(shape, rows[start - 1])
        },
    ensures
        transcript::answer_start(shape, rows) == if last >= 0 {
            start
        } else {
            rows.len() as int
        },
{
    if last >= 0 {
        assert(words_in(shape, rows[last]));
        lemma_run_of_words(shape, rows, start, last);
    }
    lemma_last_words(shape, rows, last);
}

proof fn lemma_last_message(rows: Seq<TranscriptRowKind>, at: int)
    requires
        -1 <= at < rows.len(),
        at >= 0 ==> rows[at] is Message,
        forall|i: int| at < i < rows.len() ==> !(#[trigger] rows[i] is Message),
    ensures
        transcript::last_message(rows) == if at >= 0 {
            Some(rows[at]->Message_0)
        } else {
            None
        },
    decreases rows.len(),
{
    if rows.len() > 0 && at < rows.len() - 1 {
        assert(!(rows[rows.len() - 1] is Message));
        let front = rows.drop_last();
        assert forall|i: int| at < i < front.len() implies !(#[trigger] front[i] is Message) by {
            assert(!(rows[i] is Message));
        }
        lemma_last_message(front, at);
    }
}

/// A turn's footer stands for its last message, once that is complete and the
/// turn has said something.
pub proof fn a_footer_needs_a_complete_answer(
    shape: TranscriptShape,
    rows: Seq<TranscriptRowKind>,
    at: int,
)
    requires
        -1 <= at < rows.len(),
        at >= 0 ==> rows[at] is Message && rows[at]->Message_0 < shape.messages.len(),
        forall|i: int| at < i < rows.len() ==> !(#[trigger] rows[i] is Message),
    ensures
        ({
            let footer = transcript::footer_message(shape, rows);
            let said = exists|i: int| 0 <= i < rows.len() && words_in(shape, #[trigger] rows[i]);
            let complete = at >= 0 && !shape.messages[rows[at]->Message_0 as int].streaming;
            &&& footer is Some <==> complete && said
            &&& footer is Some ==> footer->0 == rows[at]->Message_0
        }),
{
    lemma_last_message(rows, at);
    if exists|i: int| 0 <= i < rows.len() && words_in(shape, #[trigger] rows[i]) {
        let i = choose|i: int| 0 <= i < rows.len() && words_in(shape, #[trigger] rows[i]);
        assert(transcript::answer_text(shape, rows[i]));
    }
    if transcript::has_text(shape, rows) {
        let i = choose|i: int|
            0 <= i < rows.len() && transcript::answer_text(shape, #[trigger] rows[i]);
        assert(words_in(shape, rows[i]));
    }
}

/// Who made a row: the turn of a message of the assistant's or of a block of
/// work; what the user said was made by none.
pub proof fn a_row_is_made_by_its_turn(shape: TranscriptShape, i: usize, turn_id: Id)
    ensures
        i < shape.messages.len() ==> transcript::producer(shape, TranscriptRowKind::Message(i))
            == if shape.messages[i as int].role == MessageRole::Assistant {
            shape.messages[i as int].turn_id
        } else {
            None
        },
        i < shape.blocks.len() ==> transcript::producer(shape, TranscriptRowKind::TurnBlock(i))
            == shape.blocks[i as int].turn_id,
        i < shape.messages.len() ==> transcript::row_turn(shape, TranscriptRowKind::Message(i))
            == shape.messages[i as int].turn_id,
        transcript::producer(shape, TranscriptRowKind::TurnFold(turn_id)) is None,
        transcript::row_turn(shape, TranscriptRowKind::TurnFold(turn_id)) == Some(turn_id),
{
}

/// The rows of a turn are those that it made, in their order.
pub proof fn rows_of_a_turn_are_those_it_made(
    shape: TranscriptShape,
    rows: Seq<TranscriptRowKind>,
    turn_id: Id,
)
    ensures
        transcript::rows_of(shape, rows, turn_id) == rows.filter(
            |row: TranscriptRowKind| transcript::producer(shape, row) == Some(turn_id),
        ),
    decreases rows.len(),
{
    reveal(Seq::filter);
    if rows.len() > 0 {
        rows_of_a_turn_are_those_it_made(shape, rows.drop_last(), turn_id);
    }
}

// ── What stands below a turn ───────────────────────────────────────────────

/// Whether a trailer stands below a row: the row is the last of its turn, and
/// that turn has the trailer.
pub open spec fn trails(
    shape: TranscriptShape,
    rows: Seq<TranscriptRowKind>,
    trailer: Trailer,
    k: int,
    row: TranscriptRowKind,
) -> bool {
    &&& 0 <= k < rows.len()
    &&& transcript::row_turn(shape, rows[k]) is Some
    &&& transcript::trailer_row(shape, trailer, transcript::row_turn(shape, rows[k])->0) == Some(
        row,
    )
    &&& forall|j: int|
        k < j < rows.len() ==> transcript::row_turn(shape, #[trigger] rows[j])
            != transcript::row_turn(shape, rows[k])
}

proof fn lemma_trailers(
    shape: TranscriptShape,
    rows: Seq<TranscriptRowKind>,
    trailer: Trailer,
    n: int,
    row: TranscriptRowKind,
)
    requires
        0 <= n <= rows.len(),
    ensures
        transcript::with_trailers_upto(shape, rows, trailer, n).contains(row) <==> rows.take(
            n,
        ).contains(row) || exists|k: int|
            k < n && #[trigger] trails(shape, rows, trailer, k, row),
    decreases n,
{
    broadcast use {
        vstd::seq_lib::lemma_seq_concat_contains_all_elements,
        vstd::seq_lib::lemma_seq_contains_after_push,
        vstd::seq_lib::lemma_seq_empty_contains_nothing,
    };

    if n > 0 {
        lemma_trailers(shape, rows, trailer, n - 1, row);
        assert(rows.take(n) =~= rows.take(n - 1).push(rows[n - 1]));
        let after = transcript::trailer_after(shape, rows, trailer, n - 1);
        assert(after.contains(row) <==> trails(shape, rows, trailer, n - 1, row)) by {
            if trails(shape, rows, trailer, n - 1, row) {
                assert(after[0] == row);
            }
        }
        if exists|k: int| k < n && #[trigger] trails(shape, rows, trailer, k, row) {
            let k = choose|k: int| k < n && #[trigger] trails(shape, rows, trailer, k, row);
            assert(k == n - 1 || k < n - 1);
        }
    } else {
        assert(rows.take(0) =~= Seq::empty());
    }
}

/// Trailers take nothing away, and each stands below the last row of its turn.
pub proof fn trailers_stand_below_their_turns(
    shape: TranscriptShape,
    rows: Seq<TranscriptRowKind>,
    trailer: Trailer,
    row: TranscriptRowKind,
)
    ensures
        transcript::with_trailers(shape, rows, trailer).contains(row) <==> rows.contains(row)
            || exists|k: int| #[trigger] trails(shape, rows, trailer, k, row),
{
    lemma_trailers(shape, rows, trailer, rows.len() as int, row);
    assert(rows.take(rows.len() as int) =~= rows);
}

/// Which trailer a turn has: the footer of its response where it is over and
/// has one, and otherwise the files that it changed, if any.
pub proof fn a_turn_has_one_trailer(shape: TranscriptShape, turn_id: Id)
    ensures
        ({
            let files = transcript::trailer_row(shape, Trailer::ChangedFiles, turn_id);
            let footer = transcript::trailer_row(shape, Trailer::ResponseFooter, turn_id);
            let message = transcript::footer_message(
                shape,
                transcript::produced_rows(shape, turn_id),
            );
            let over = exists|i: int|
                0 <= i < shape.turns.len() && (#[trigger] shape.turns[i]).id == turn_id
                    && shape.turns[i].status != TurnStatus::Running;
            let changed = exists|i: int|
                0 <= i < shape.turns.len() && (#[trigger] shape.turns[i]).id == turn_id
                    && shape.turns[i].status != TurnStatus::Running
                    && shape.turns[i].has_file_summary;
            &&& files is None || footer is None
            &&& footer is Some <==> over && message is Some
            &&& footer is Some ==> footer == Some(
                TranscriptRowKind::ResponseFooter(turn_id, message->0),
            )
            &&& files is Some <==> changed && message is None
            &&& files is Some ==> files == Some(TranscriptRowKind::ChangedFiles(turn_id))
        }),
{
}

/// The sign that the agent works stands at the end while a turn of a busy
/// session runs, and nowhere else.
pub proof fn a_running_turn_shows_that_it_works(shape: TranscriptShape, expanded: Set<Id>)
    ensures
        ({
            let rows = transcript::base_rows(shape, expanded);
            let works = shape.busy && shape.turns.len() > 0 && shape.turns.last().status
                == TurnStatus::Running;
            &&& works ==> rows.len() > 0 && rows.last() == TranscriptRowKind::WorkingIndicator
            &&& works ==> rows.drop_last() == transcript::shown_rows(
                shape,
                expanded,
                transcript::session_rows(shape),
                transcript::session_rows(shape).len() as int,
            )
            &&& !works ==> rows == transcript::shown_rows(
                shape,
                expanded,
                transcript::session_rows(shape),
                transcript::session_rows(shape).len() as int,
            )
        }),
{
    let rows = transcript::session_rows(shape);
    let shown = transcript::shown_rows(shape, expanded, rows, rows.len() as int);
    assert(shown.push(TranscriptRowKind::WorkingIndicator).drop_last() =~= shown);
}

// ── Splices ────────────────────────────────────────────────────────────────

proof fn lemma_common_front(a: Seq<TranscriptRowKind>, b: Seq<TranscriptRowKind>)
    ensures
        ({
            let n = transcript::common_prefix(a, b) as int;
            &&& n <= a.len() && n <= b.len()
            &&& a.take(n) == b.take(n)
            &&& n < a.len() && n < b.len() ==> a[n] != b[n]
        }),
    decreases a.len(),
{
    let n = transcript::common_prefix(a, b) as int;
    if a.len() > 0 && b.len() > 0 && a[0] == b[0] {
        lemma_common_front(a.skip(1), b.skip(1));
        assert forall|i: int| 0 <= i < n implies a[i] == b[i] by {
            if i > 0 {
                assert(a.skip(1).take(n - 1)[i - 1] == a[i]);
                assert(b.skip(1).take(n - 1)[i - 1] == b[i]);
            }
        }
        assert(a.take(n) =~= b.take(n));
    } else {
        assert(a.take(0) =~= b.take(0));
    }
}

proof fn lemma_common_back(a: Seq<TranscriptRowKind>, b: Seq<TranscriptRowKind>)
    ensures
        ({
            let n = transcript::common_suffix(a, b) as int;
            &&& n <= a.len() && n <= b.len()
            &&& a.skip(a.len() - n) == b.skip(b.len() - n)
            &&& n < a.len() && n < b.len() ==> a[a.len() - 1 - n] != b[b.len() - 1 - n]
        }),
    decreases a.len(),
{
    let n = transcript::common_suffix(a, b) as int;
    if a.len() > 0 && b.len() > 0 && a.last() == b.last() {
        let fa = a.drop_last();
        let fb = b.drop_last();
        lemma_common_back(fa, fb);
        let ta = a.skip(a.len() - n);
        let tb = b.skip(b.len() - n);
        assert forall|i: int| 0 <= i < n implies #[trigger] ta[i] == tb[i] by {
            if i < n - 1 {
                assert(fa.skip(fa.len() - (n - 1))[i] == ta[i]);
                assert(fb.skip(fb.len() - (n - 1))[i] == tb[i]);
            }
        }
        assert(a.skip(a.len() - n) =~= b.skip(b.len() - n));
    } else {
        assert(a.skip(a.len() as int) =~= b.skip(b.len() as int));
    }
}

/// A splice says what to replace so that the rows on screen become the next
/// ones, and leaves the longest possible beginning alone; there is none where
/// nothing changes.
pub proof fn a_splice_leads_to_the_next_rows(
    previous: Seq<TranscriptRowKind>,
    next: Seq<TranscriptRowKind>,
)
    requires
        previous.len() <= usize::MAX,
        next.len() <= usize::MAX,
    ensures
        transcript::splice_between(previous, next) is None <==> previous == next,
        transcript::splice_between(previous, next) matches Some(splice) ==> {
            let start = splice.start as int;
            let stays = previous.len() - splice.old_end;
            &&& start <= splice.old_end <= previous.len()
            &&& start + splice.new_count + stays == next.len()
            &&& previous.take(start) == next.take(start)
            &&& previous.skip(splice.old_end as int) == next.skip(start + splice.new_count)
            &&& start < previous.len() && start < next.len() ==> previous[start] != next[start]
        },
{
    lemma_common_front(previous, next);
    let start = transcript::common_prefix(previous, next) as int;
    let a = previous.skip(start);
    let b = next.skip(start);
    lemma_common_back(a, b);
    let stays = transcript::common_suffix(a, b) as int;
    assert(a.skip(a.len() - stays) =~= previous.skip(previous.len() - stays));
    assert(b.skip(b.len() - stays) =~= next.skip(next.len() - stays));
}

// ── Below a response ───────────────────────────────────────────────────────

/// Whether a message is the last that the assistant said in its turn.
pub open spec fn closes_its_turn(messages: Seq<MessageView>, index: int) -> bool {
    forall|k: int|
        index < k < messages.len() && (#[trigger] messages[k]).role == MessageRole::Assistant
            ==> messages[k].turn_id != messages[index].turn_id
}

proof fn lemma_last_part(messages: Seq<MessageView>, turn_id: Id, n: int, at: int)
    requires
        0 <= at < n <= messages.len(),
        messages[at].role == MessageRole::Assistant,
        messages[at].turn_id == Some(turn_id),
        forall|k: int|
            at < k < n && (#[trigger] messages[k]).role == MessageRole::Assistant
                ==> messages[k].turn_id != Some(turn_id),
    ensures
        response::last_part(messages, turn_id, n) == Some(at as usize),
    decreases n,
{
    if at < n - 1 {
        assert(messages[n - 1].role == MessageRole::Assistant ==> messages[n - 1].turn_id != Some(
            turn_id,
        ));
        lemma_last_part(messages, turn_id, n - 1, at);
    }
}

proof fn lemma_later_part(messages: Seq<MessageView>, turn_id: Id, n: int, at: int)
    requires
        0 <= at < n <= messages.len() <= usize::MAX,
        messages[at].role == MessageRole::Assistant,
        messages[at].turn_id == Some(turn_id),
    ensures
        response::last_part(messages, turn_id, n) is Some,
        at <= response::last_part(messages, turn_id, n)->0 < n,
    decreases n,
{
    if at < n - 1 {
        lemma_later_part(messages, turn_id, n - 1, at);
    }
}

/// A response has its footer below the last message of its turn that is the
/// assistant's and complete, once the turn is over; a message of no turn has
/// its own.
pub proof fn a_footer_closes_its_turn(session: SessionView, index: int, turn: int)
    requires
        0 <= index < session.messages.len() <= usize::MAX,
        session.messages[index].turn_id is Some ==> {
            &&& 0 <= turn <= session.turns.len()
            &&& turn < session.turns.len() ==> session.turns[turn].id
                == session.messages[index].turn_id->0
            &&& forall|k: int|
                0 <= k < turn ==> (#[trigger] session.turns[k]).id
                    != session.messages[index].turn_id->0
        },
    ensures
        ({
            let message = session.messages[index];
            let runs = message.turn_id is Some && turn < session.turns.len()
                && session.turns[turn].status == TurnStatus::Running;
            let own = response::footer_owner(session, index) == Some(index as usize);
            &&& own <==> message.role == MessageRole::Assistant && !message.streaming && !runs && (
            message.turn_id is None || closes_its_turn(session.messages, index))
            &&& response::footer_time(session, index) is Some <==> own
            &&& own ==> response::footer_time(session, index)->0 == if message.turn_id is Some
                && turn < session.turns.len() && session.turns[turn].completed_at is Some {
                session.turns[turn].completed_at->0
            } else {
                message.created_at
            }
            &&& response::footer_copy(session, index) is Some <==> own
            &&& own && message.turn_id is None ==> response::footer_copy(session, index)->0
                == message.content
        }),
{
    let message = session.messages[index];
    let count = session.messages.len() as int;
    if message.turn_id is Some {
        let turn_id = message.turn_id->0;
        lemma_first_turn(session.turns, turn_id, turn);
        if message.role == MessageRole::Assistant {
            lemma_later_part(session.messages, turn_id, count, index);
            if closes_its_turn(session.messages, index) {
                lemma_last_part(session.messages, turn_id, count, index);
            } else {
                let k = choose|k: int|
                    index < k < count && (#[trigger] session.messages[k]).role
                        == MessageRole::Assistant && session.messages[k].turn_id
                        == message.turn_id;
                lemma_later_part(session.messages, turn_id, count, k);
            }
        }
    }
}

proof fn lemma_first_turn(turns: Seq<TurnView>, turn_id: Id, at: int)
    requires
        0 <= at <= turns.len(),
        at < turns.len() ==> turns[at].id == turn_id,
        forall|k: int| 0 <= k < at ==> (#[trigger] turns[k]).id != turn_id,
    ensures
        crate::duration::first_turn(turns, turn_id) == if at < turns.len() {
            Some(turns[at])
        } else {
            None
        },
    decreases turns.len(),
{
    if turns.len() > 0 && at > 0 {
        assert(turns[0].id != turn_id);
        let rest = turns.skip(1);
        assert forall|k: int| 0 <= k < at - 1 implies (#[trigger] rest[k]).id != turn_id by {
            assert(turns[k + 1].id != turn_id);
        }
        lemma_first_turn(rest, turn_id, at - 1);
    }
}

/// What is copied of an answer is every message with words among its rows, in
/// order.
pub proof fn an_answer_is_copied_in_order(
    messages: Seq<MessageView>,
    rows: Seq<TranscriptRowKind>,
    row: TranscriptRowKind,
)
    ensures
        response::shown_texts(messages, Seq::empty()).len() == 0,
        response::shown_texts(messages, rows.push(row)) == if row is Message && row->Message_0
            < messages.len() && !text::blank(messages[row->Message_0 as int].content) {
            response::shown_texts(messages, rows).push(messages[row->Message_0 as int].content)
        } else {
            response::shown_texts(messages, rows)
        },
{
    assert(rows.push(row).drop_last() =~= rows);
}

/// Whether the user spoke at a place and everything from there up to another
/// belongs to one turn.
pub open spec fn user_run(messages: Seq<MessageView>, turn_id: Id, from: int, end: int) -> bool {
    &&& 0 <= from < end
    &&& messages[from].role == MessageRole::User
    &&& forall|k: int| from <= k < end ==> (#[trigger] messages[k]).turn_id == Some(turn_id)
}

/// A message of the user's opens its turn where none of theirs stands before it
/// in the unbroken run of that turn's messages.
pub proof fn a_prompt_opens_its_turn(messages: Seq<MessageView>, index: int)
    requires
        0 <= index < messages.len(),
    ensures
        response::opens_turn(messages, index) <==> {
            &&& messages[index].role == MessageRole::User
            &&& messages[index].turn_id is Some
            &&& !exists|from: int| #[trigger]
                user_run(messages, messages[index].turn_id->0, from, index)
        },
{
    if messages[index].turn_id is Some {
        lemma_run_has_user(messages, messages[index].turn_id->0, index);
    }
}

proof fn lemma_run_has_user(messages: Seq<MessageView>, turn_id: Id, end: int)
    requires
        0 <= end <= messages.len(),
    ensures
        response::run_has_user(messages, turn_id, end) <==> exists|from: int| #[trigger]
            user_run(messages, turn_id, from, end),
    decreases end,
{
    if end > 0 {
        lemma_run_has_user(messages, turn_id, end - 1);
        if exists|from: int| #[trigger] user_run(messages, turn_id, from, end) {
            let from = choose|from: int| #[trigger] user_run(messages, turn_id, from, end);
            assert(messages[end - 1].turn_id == Some(turn_id));
            if from < end - 1 {
                assert(user_run(messages, turn_id, from, end - 1));
            }
        }
        if response::run_has_user(messages, turn_id, end) {
            if messages[end - 1].role == MessageRole::User {
                assert(user_run(messages, turn_id, end - 1, end));
            } else {
                let from = choose|from: int| #[trigger]
                    user_run(messages, turn_id, from, end - 1);
                assert(user_run(messages, turn_id, from, end));
            }
        }
    }
}

// ── The list of prompts ────────────────────────────────────────────────────

proof fn lemma_word_len(word: Seq<char>, rest: Seq<char>)
    requires
        forall|i: int| 0 <= i < word.len() ==> !text::is_whitespace(#[trigger] word[i]),
        rest.len() > 0 ==> text::is_whitespace(rest[0]),
    ensures
        navigation::word_len(word + rest) == word.len(),
    decreases word.len(),
{
    let whole = word + rest;
    if word.len() > 0 {
        assert(whole[0] == word[0]);
        assert(whole.skip(1) =~= word.skip(1) + rest);
        assert forall|i: int| 0 <= i < word.skip(1).len() implies !text::is_whitespace(
            #[trigger] word.skip(1)[i],
        ) by {
            assert(!text::is_whitespace(word[i + 1]));
        }
        lemma_word_len(word.skip(1), rest);
    } else {
        assert(whole =~= rest);
    }
}

/// A text is taken apart at white space: a word is what stands before it, and
/// the words of the rest follow; white space makes no words.
pub proof fn words_end_at_white_space(word: Seq<char>, space: char, rest: Seq<char>)
    requires
        word.len() > 0,
        forall|i: int| 0 <= i < word.len() ==> !text::is_whitespace(#[trigger] word[i]),
        text::is_whitespace(space),
    ensures
        navigation::words(word) == seq![word],
        navigation::words(seq![space] + rest) == navigation::words(rest),
        navigation::words(word + seq![space] + rest) == seq![word] + navigation::words(rest),
{
    let none = Seq::<char>::empty();
    lemma_word_len(word, none);
    assert(word + none =~= word);
    let n = word.len() as int;
    assert(word.take(n) =~= word);
    assert(word.skip(n) =~= none);
    assert(navigation::words(none) =~= Seq::empty());
    assert(seq![word] + Seq::<Seq<char>>::empty() =~= seq![word]);
    let spaced = seq![space] + rest;
    assert(spaced[0] == space);
    assert(spaced.skip(1) =~= rest);
    lemma_word_len(word, spaced);
    let whole = word + seq![space] + rest;
    assert(whole =~= word + spaced);
    assert(whole[0] == word[0]);
    assert(whole.take(n) =~= word);
    assert(whole.skip(n) =~= spaced);
}

/// A text is clipped behind as many clusters as it may have, with a mark; one
/// that has no more stays whole.
pub proof fn a_text_is_clipped_by_its_clusters(clusters: Seq<Seq<char>>, max: nat)
    ensures
        clusters.len() <= max ==> navigation::clipped(clusters, max) == navigation::concatenated(
            clusters,
        ),
        clusters.len() > max ==> navigation::clipped(clusters, max) == navigation::concatenated(
            clusters.take(max as int),
        ) + "…"@,
        navigation::concatenated(Seq::empty()).len() == 0,
        forall|cluster: Seq<char>| #[trigger]
            navigation::concatenated(clusters.push(cluster)) == navigation::concatenated(clusters)
                + cluster,
{
    assert forall|cluster: Seq<char>| #[trigger]
        navigation::concatenated(clusters.push(cluster)) == navigation::concatenated(clusters)
            + cluster by {
        assert(clusters.push(cluster).drop_last() =~= clusters);
    }
}

proof fn lemma_next_user(messages: Seq<MessageView>, from: int, at: int)
    requires
        0 <= from <= at <= messages.len(),
        at < messages.len() ==> messages[at].role == MessageRole::User,
        forall|k: int| from <= k < at ==> (#[trigger] messages[k]).role != MessageRole::User,
    ensures
        navigation::next_user(messages, from) == at,
    decreases at - from,
{
    if from < at {
        assert(messages[from].role != MessageRole::User);
        lemma_next_user(messages, from + 1, at);
    }
}

proof fn lemma_last_reply(messages: Seq<MessageView>, from: int, to: int, at: int)
    requires
        0 <= from,
        to <= messages.len(),
        from - 1 <= at < to || at == from - 1,
        at >= from ==> messages[at].role == MessageRole::Assistant && !text::blank(
            messages[at].content,
        ),
        forall|k: int|
            at < k < to && k >= from ==> (#[trigger] messages[k]).role != MessageRole::Assistant
                || text::blank(messages[k].content),
    ensures
        navigation::last_reply(messages, from, to) == if at >= from {
            Some(messages[at].content)
        } else {
            None
        },
    decreases to,
{
    if to > from && to > 0 && at < to - 1 {
        assert(messages[to - 1].role != MessageRole::Assistant || text::blank(
            messages[to - 1].content,
        ));
        lemma_last_reply(messages, from, to - 1, at);
    }
}

/// An entry previews the last words that the assistant said before the next
/// prompt; nothing while the prompt's turn runs, and nothing where it said
/// nothing.
pub proof fn an_entry_previews_the_last_reply(
    session: SessionView,
    index: int,
    next: int,
    reply: int,
)
    requires
        0 <= index < next <= session.messages.len(),
        next < session.messages.len() ==> session.messages[next].role == MessageRole::User,
        forall|k: int|
            index < k < next ==> (#[trigger] session.messages[k]).role != MessageRole::User,
        index <= reply < next,
        reply > index ==> session.messages[reply].role == MessageRole::Assistant && !text::blank(
            session.messages[reply].content,
        ),
        forall|k: int|
            reply < k < next ==> (#[trigger] session.messages[k]).role != MessageRole::Assistant
                || text::blank(session.messages[k].content),
    ensures
        ({
            let turn_id = session.messages[index].turn_id;
            let runs = exists|i: int|
                0 <= i < session.turns.len() && Some((#[trigger] session.turns[i]).id) == turn_id
                    && session.turns[i].status == TurnStatus::Running;
            let shown = navigation::response_preview(session, index);
            &&& runs || reply == index ==> shown.len() == 0
            &&& !runs && reply > index ==> shown == navigation::preview(
                session.messages[reply].content,
                240,
            )
        }),
{
    lemma_next_user(session.messages, index + 1, next);
    lemma_last_reply(session.messages, index + 1, next, reply);
    let turn_id = session.messages[index].turn_id;
    if turn_id is Some {
        assert(navigation::is_running(session.turns, turn_id->0) <==> exists|i: int|
            0 <= i < session.turns.len() && Some((#[trigger] session.turns[i]).id) == turn_id
                && session.turns[i].status == TurnStatus::Running);
    }
}

/// A prompt is previewed by what the transcript shows of it, and one without
/// words by its attachments.
pub proof fn a_prompt_is_previewed_as_shown(message: MessageView)
    ensures
        ({
            let shown = if message.display_content is Some {
                message.display_content->0
            } else {
                message.content
            };
            &&& !text::blank(shown) ==> navigation::prompt_preview(message)
                == navigation::preview(shown, 100)
            &&& text::blank(shown) ==> exists|names: Seq<Seq<char>>|
                {
                    &&& names.len() == message.attachments.len()
                    &&& forall|i: int|
                        0 <= i < names.len() ==> #[trigger] names[i]
                            == message.attachments[i].name
                    &&& navigation::prompt_preview(message) == #[trigger] text::joined(
                        names,
                        ", "@,
                    )
                }
        }),
{
    let names = navigation::attachment_names(message);
    assert(text::joined(names, ", "@) == text::joined(names, ", "@));
}

proof fn lemma_row_found(rows: Seq<TranscriptRowKind>, from: int, message: int)
    requires
        0 <= from <= rows.len(),
    ensures
        ({
            let at = navigation::row_at_or_after(rows, from, message);
            &&& from <= at <= rows.len()
            &&& at < rows.len() ==> rows[at] is Message && rows[at]->Message_0 >= message
            &&& forall|k: int|
                from <= k < at ==> !(#[trigger] rows[k] is Message && rows[k]->Message_0
                    >= message)
        }),
    decreases rows.len() - from,
{
    if from < rows.len() && !(rows[from] is Message && rows[from]->Message_0 >= message) {
        lemma_row_found(rows, from + 1, message);
    }
}

/// Whether an entry stands for a prompt that the rows show.
pub open spec fn stands_for(
    session: SessionView,
    rows: Seq<TranscriptRowKind>,
    entry: NavigationTurnView,
) -> bool {
    let i = entry.message_index as int;
    &&& i < session.messages.len()
    &&& session.messages[i].role == MessageRole::User
    &&& entry.row_index < rows.len()
    &&& rows[entry.row_index as int] == TranscriptRowKind::Message(entry.message_index)
    &&& entry.message_id == session.messages[i].id
    &&& entry.prompt == navigation::prompt_preview(session.messages[i])
    &&& entry.response == navigation::response_preview(session, i)
}

/// The list of prompts holds an entry for each prompt that the rows show, and
/// for nothing else.
pub proof fn every_shown_prompt_is_listed(
    session: SessionView,
    rows: Seq<TranscriptRowKind>,
    index: int,
    cursor: int,
    prompt: int,
    row: int,
)
    requires
        0 <= index,
        session.messages.len() <= usize::MAX,
        rows.len() <= usize::MAX,
        0 <= cursor <= rows.len(),
        forall|i: int, j: int|
            0 <= i < j < rows.len() && #[trigger] rows[i] is Message && #[trigger] rows[j] is Message
                ==> rows[i]->Message_0 < rows[j]->Message_0,
        index <= prompt < session.messages.len(),
        cursor <= row < rows.len(),
        rows[row] == TranscriptRowKind::Message(prompt as usize),
    ensures
        ({
            let entries = navigation::entries_from(session, rows, index, cursor);
            &&& forall|i: int|
                0 <= i < entries.len() ==> stands_for(session, rows, #[trigger] entries[i])
            &&& session.messages[prompt].role == MessageRole::User <==> exists|i: int|
                0 <= i < entries.len() && (#[trigger] entries[i]).message_index == prompt
        }),
    decreases session.messages.len() - index,
{
    lemma_entries_sound(session, rows, index, cursor);
    let entries = navigation::entries_from(session, rows, index, cursor);
    if session.messages[prompt].role == MessageRole::User {
        if session.messages[index].role != MessageRole::User {
            every_shown_prompt_is_listed(session, rows, index + 1, cursor, prompt, row);
        } else {
            lemma_row_found(rows, cursor, index);
            let at = navigation::row_at_or_after(rows, cursor, index);
            assert(rows[row] is Message && rows[row]->Message_0 >= index);
            assert(at <= row);
            if index == prompt {
                if at < row {
                    assert(rows[at]->Message_0 < rows[row]->Message_0);
                }
                assert(entries[0].message_index == prompt);
            } else {
                every_shown_prompt_is_listed(session, rows, index + 1, at, prompt, row);
                let rest = navigation::entries_from(session, rows, index + 1, at);
                let i = choose|i: int|
                    0 <= i < rest.len() && (#[trigger] rest[i]).message_index == prompt;
                if rows[at] == TranscriptRowKind::Message(index as usize) {
                    assert(entries[i + 1] == rest[i]);
                } else {
                    assert(entries[i] == rest[i]);
                }
            }
        }
    } else {
        assert forall|i: int| 0 <= i < entries.len() implies (
        #[trigger] entries[i]).message_index != prompt by {
            assert(stands_for(session, rows, entries[i]));
        }
    }
}

proof fn lemma_entries_sound(
    session: SessionView,
    rows: Seq<TranscriptRowKind>,
    index: int,
    cursor: int,
)
    requires
        0 <= index,
        session.messages.len() <= usize::MAX,
        rows.len() <= usize::MAX,
        0 <= cursor <= rows.len(),
    ensures
        ({
            let entries = navigation::entries_from(session, rows, index, cursor);
            &&& forall|i: int|
                0 <= i < entries.len() ==> stands_for(session, rows, #[trigger] entries[i])
            &&& forall|i: int|
                0 <= i < entries.len() ==> (#[trigger] entries[i]).message_index >= index
            &&& forall|i: int, j: int|
                0 <= i < j < entries.len() ==> (#[trigger] entries[i]).message_index < (
                #[trigger] entries[j]).message_index
        }),
    decreases session.messages.len() - index,
{
    if index >= session.messages.len() {
        assert(navigation::entries_from(session, rows, index, cursor).len() == 0);
    } else {
        if session.messages[index].role != MessageRole::User {
            lemma_entries_sound(session, rows, index + 1, cursor);
            assert(navigation::entries_from(session, rows, index, cursor)
                == navigation::entries_from(session, rows, index + 1, cursor));
        } else {
            lemma_row_found(rows, cursor, index);
            let at = navigation::row_at_or_after(rows, cursor, index);
            lemma_entries_sound(session, rows, index + 1, at);
            let entries = navigation::entries_from(session, rows, index, cursor);
            let rest = navigation::entries_from(session, rows, index + 1, at);
            if at < rows.len() && rows[at] == TranscriptRowKind::Message(index as usize) {
                assert(stands_for(session, rows, entries[0]));
                assert(entries[0].message_index == index);
                assert forall|i: int| 1 <= i < entries.len() implies #[trigger] entries[i]
                    == rest[i - 1] by {}
                assert forall|i: int| 0 <= i < entries.len() implies stands_for(
                    session,
                    rows,
                    #[trigger] entries[i],
                ) && entries[i].message_index >= index by {
                    if i > 0 {
                        assert(stands_for(session, rows, rest[i - 1]));
                    }
                }
                assert forall|i: int, j: int| 0 <= i < j < entries.len() implies (
                #[trigger] entries[i]).message_index < (#[trigger] entries[j]).message_index by {
                    assert(rest[j - 1].message_index >= index + 1);
                    if i > 0 {
                        assert(rest[i - 1].message_index < rest[j - 1].message_index);
                    }
                }
            } else {
                assert(entries == rest);
            }
        }
    }
}

} // verus!
